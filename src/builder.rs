//! Building the derived word lists from dictionary index files.
use vstd::prelude::*;
use std::collections::HashMap;

use crate::text::{first_token, first_word};
use crate::words::lines_view;

verus! {

broadcast use vstd::std_specs::hash::group_hash_axioms;

pub open spec fn is_ascii_letter(c: char) -> bool {
    ('a' <= c && c <= 'z') || ('A' <= c && c <= 'Z')
}

/// A dictionary index line names a known word when its first token starts
/// with an ASCII letter.
pub open spec fn names_known_word(line: Seq<char>) -> bool {
    first_token(line).len() > 0 && is_ascii_letter(first_token(line)[0])
}

/// The known words of a dictionary index: the first tokens of its lines that
/// start with an ASCII letter.
pub open spec fn known_words(index: Seq<Seq<char>>) -> Set<Seq<char>> {
    Set::new(
        |w: Seq<char>|
            exists|i: int| 0 <= i < index.len() && names_known_word(#[trigger] index[i])
                && first_token(index[i]) == w,
    )
}

/// A corpus line is kept when its first token is a known word.
pub open spec fn keeps_line(known: Set<Seq<char>>, line: Seq<char>) -> bool {
    first_token(line).len() > 0 && known.contains(first_token(line))
}

/// The corpus lines, in corpus order, whose first token is a known word.
pub open spec fn kept_lines(known: Set<Seq<char>>, corpus: Seq<Seq<char>>) -> Seq<Seq<char>>
    decreases corpus.len(),
{
    if corpus.len() == 0 {
        Seq::empty()
    } else {
        let rest = kept_lines(known, corpus.drop_last());
        if keeps_line(known, corpus.last()) {
            rest.push(corpus.last())
        } else {
            rest
        }
    }
}

/// The bucket that a word falls in.
pub open spec fn word_hash(w: Seq<char>) -> u64
    decreases w.len(),
{
    if w.len() == 0 {
        0
    } else {
        word_hash(w.drop_last()).wrapping_mul(31).wrapping_add(w.last() as u64)
    }
}

fn hash_word(w: &str) -> (r: u64)
    ensures
        r == word_hash(w@),
{
    let n = w.unicode_len();
    let mut h: u64 = 0;
    let mut i: usize = 0;
    while i < n
        invariant
            n == w@.len(),
            i <= n,
            h == word_hash(w@.take(i as int)),
        decreases n - i,
    {
        assert(w@.take(i + 1).drop_last() =~= w@.take(i as int));
        h = h.wrapping_mul(31).wrapping_add(w.get_char(i) as u64);
        i = i + 1;
    }
    assert(w@.take(n as int) =~= w@);
    h
}

/// A set of words, kept in buckets by `word_hash`.
pub struct WordSet {
    buckets: HashMap<u64, Vec<String>>,
}

impl WordSet {
    pub closed spec fn bucket_holds(self, w: Seq<char>) -> bool {
        self.buckets@.contains_key(word_hash(w)) && exists|i: int|
            0 <= i < self.buckets@[word_hash(w)]@.len()
                && #[trigger] self.buckets@[word_hash(w)]@[i]@ == w
    }

    pub closed spec fn view(self) -> Set<Seq<char>> {
        Set::new(|w: Seq<char>| self.bucket_holds(w))
    }

    pub fn new() -> (r: Self)
        ensures
            r@ == Set::<Seq<char>>::empty(),
    {
        let r = WordSet { buckets: HashMap::new() };
        assert(r@ =~= Set::<Seq<char>>::empty());
        r
    }

    pub fn insert(&mut self, w: String)
        ensures
            final(self)@ == old(self)@.insert(w@),
    {
        let h = hash_word(w.as_str());
        let ghost wv = w@;
        let mut bucket = match self.buckets.remove(&h) {
            Some(b) => b,
            None => Vec::new(),
        };
        let ghost old_bucket = bucket@;
        assert(old(self).buckets@.contains_key(h) ==> old_bucket == old(self).buckets@[h]@);
        bucket.push(w);
        self.buckets.insert(h, bucket);
        assert forall|x: Seq<char>| #[trigger] self.bucket_holds(x) == (old(self).bucket_holds(x) || x == wv) by {
            if word_hash(x) == h {
                assert(self.buckets@[h]@.len() == old_bucket.len() + 1);
                assert(self.buckets@[h]@.drop_last() == old_bucket);
                assert(self.buckets@[h]@.last()@ == wv);
                if old(self).bucket_holds(x) {
                    let i = choose|i: int| 0 <= i < old(self).buckets@[h]@.len()
                        && #[trigger] old(self).buckets@[h]@[i]@ == x;
                    assert(self.buckets@[h]@[i]@ == x);
                }
                if x == wv {
                    assert(self.buckets@[h]@[old_bucket.len() as int]@ == x);
                }
                if self.bucket_holds(x) {
                    let i = choose|i: int| 0 <= i < self.buckets@[h]@.len()
                        && #[trigger] self.buckets@[h]@[i]@ == x;
                    if i < old_bucket.len() {
                        assert(old_bucket[i]@ == x);
                        assert(old(self).buckets@.contains_key(h));
                        assert(old(self).buckets@[h]@[i]@ == x);
                    }
                }
            } else {
                assert(self.buckets@.contains_key(word_hash(x)) == old(self).buckets@.contains_key(word_hash(x)));
                assert(self.buckets@[word_hash(x)] == old(self).buckets@[word_hash(x)]);
            }
        }
        assert(self@ =~= old(self)@.insert(wv));
    }

    pub fn contains(&self, w: &String) -> (r: bool)
        ensures
            r == self@.contains(w@),
    {
        let h = hash_word(w.as_str());
        match self.buckets.get(&h) {
            None => false,
            Some(bucket) => {
                let mut i: usize = 0;
                while i < bucket.len()
                    invariant
                        self.buckets@.contains_key(h),
                        bucket@ == self.buckets@[h]@,
                        h == word_hash(w@),
                        i <= bucket.len(),
                        forall|k: int| 0 <= k < i ==> #[trigger] bucket@[k]@ != w@,
                    decreases bucket.len() - i,
                {
                    if bucket[i].eq(w) {
                        assert(self.bucket_holds(w@));
                        return true;
                    }
                    i = i + 1;
                }
                false
            },
        }
    }
}

fn is_ascii_letter_char(c: char) -> (r: bool)
    ensures
        r == is_ascii_letter(c),
{
    ('a' <= c && c <= 'z') || ('A' <= c && c <= 'Z')
}

/// Collects the known words of a dictionary index, given as its lines.
pub fn known_word_set(index_lines: &Vec<String>) -> (r: WordSet)
    ensures
        r@ == known_words(lines_view(index_lines@)),
{
    let mut set = WordSet::new();
    let ghost index = lines_view(index_lines@);
    let mut i: usize = 0;
    while i < index_lines.len()
        invariant
            i <= index_lines.len(),
            index == lines_view(index_lines@),
            set@ == known_words(index.take(i as int)),
        decreases index_lines.len() - i,
    {
        let ghost before = set@;
        let ghost prefix = index.take(i as int);
        let ghost next = index.take(i + 1);
        assert(next[i as int] == index_lines@[i as int]@);
        let word = first_word(index_lines[i].as_str());
        if word.unicode_len() > 0 && is_ascii_letter_char(word.get_char(0)) {
            let ghost wv = word@;
            set.insert(word);
            assert forall|w: Seq<char>| #[trigger] known_words(next).contains(w) == (before.contains(w) || w == wv) by {
                if known_words(next).contains(w) {
                    let j = choose|j: int| 0 <= j < next.len() && names_known_word(#[trigger] next[j])
                        && first_token(next[j]) == w;
                    if j < i {
                        assert(prefix[j] == next[j]);
                    }
                }
                if before.contains(w) {
                    let j = choose|j: int| 0 <= j < prefix.len() && names_known_word(#[trigger] prefix[j])
                        && first_token(prefix[j]) == w;
                    assert(next[j] == prefix[j]);
                }
                if w == wv {
                    assert(names_known_word(next[i as int]));
                }
            }
            assert(set@ =~= known_words(next));
        } else {
            assert forall|w: Seq<char>| #[trigger] known_words(next).contains(w) == before.contains(w) by {
                if known_words(next).contains(w) {
                    let j = choose|j: int| 0 <= j < next.len() && names_known_word(#[trigger] next[j])
                        && first_token(next[j]) == w;
                    if j < i {
                        assert(prefix[j] == next[j]);
                    }
                }
                if before.contains(w) {
                    let j = choose|j: int| 0 <= j < prefix.len() && names_known_word(#[trigger] prefix[j])
                        && first_token(prefix[j]) == w;
                    assert(next[j] == prefix[j]);
                }
            }
            assert(set@ =~= known_words(next));
        }
        i = i + 1;
    }
    assert(index.take(index_lines.len() as int) =~= index);
    set
}

/// Keeps, in corpus order, the whole corpus lines whose first token is a
/// known word of the dictionary index.
pub fn generate_word_list(index_lines: &Vec<String>, corpus_lines: &Vec<String>) -> (r: Vec<String>)
    ensures
        lines_view(r@) == kept_lines(known_words(lines_view(index_lines@)), lines_view(corpus_lines@)),
{
    let known = known_word_set(index_lines);
    let ghost corpus = lines_view(corpus_lines@);
    let mut out: Vec<String> = Vec::new();
    let mut i: usize = 0;
    while i < corpus_lines.len()
        invariant
            i <= corpus_lines.len(),
            corpus == lines_view(corpus_lines@),
            lines_view(out@) == kept_lines(known@, corpus.take(i as int)),
        decreases corpus_lines.len() - i,
    {
        let ghost before = out@;
        assert(corpus.take(i + 1).drop_last() =~= corpus.take(i as int));
        let word = first_word(corpus_lines[i].as_str());
        if word.unicode_len() > 0 && known.contains(&word) {
            out.push(corpus_lines[i].clone());
            assert(lines_view(out@) =~= lines_view(before).push(corpus_lines@[i as int]@));
        }
        i = i + 1;
    }
    assert(corpus.take(corpus_lines.len() as int) =~= corpus);
    out
}

/// `a` is `b` with some of its items left out, the others in their order.
pub open spec fn is_subsequence(a: Seq<Seq<char>>, b: Seq<Seq<char>>) -> bool
    decreases b.len(),
{
    if a.len() == 0 {
        true
    } else if b.len() == 0 {
        false
    } else if a.last() == b.last() {
        is_subsequence(a.drop_last(), b.drop_last())
    } else {
        is_subsequence(a, b.drop_last())
    }
}

proof fn lemma_kept_lines_known_in_order(known: Set<Seq<char>>, corpus: Seq<Seq<char>>)
    ensures
        forall|i: int| 0 <= i < kept_lines(known, corpus).len()
            ==> keeps_line(known, #[trigger] kept_lines(known, corpus)[i]),
        is_subsequence(kept_lines(known, corpus), corpus),
    decreases corpus.len(),
{
    if corpus.len() > 0 {
        lemma_kept_lines_known_in_order(known, corpus.drop_last());
        let rest = kept_lines(known, corpus.drop_last());
        if keeps_line(known, corpus.last()) {
            assert(kept_lines(known, corpus).drop_last() =~= rest);
            assert forall|i: int| 0 <= i < kept_lines(known, corpus).len()
                implies keeps_line(known, #[trigger] kept_lines(known, corpus)[i]) by {
                if i < rest.len() {
                    assert(kept_lines(known, corpus)[i] == rest[i]);
                }
            }
        } else if rest.len() > 0 {
            assert(keeps_line(known, rest.last()));
        }
    }
}

/// Every corpus line that the frequency filter keeps has as its first token a
/// known word of the dictionary index, and the kept lines stand in the order
/// that the corpus gives them.
pub proof fn lemma_frequency_filter_known_in_order(index: Seq<Seq<char>>, corpus: Seq<Seq<char>>)
    ensures
        forall|i: int| 0 <= i < kept_lines(known_words(index), corpus).len()
            ==> known_words(index).contains(
                first_token(#[trigger] kept_lines(known_words(index), corpus)[i]),
            ),
        is_subsequence(kept_lines(known_words(index), corpus), corpus),
{
    lemma_kept_lines_known_in_order(known_words(index), corpus);
    assert forall|i: int| 0 <= i < kept_lines(known_words(index), corpus).len()
        implies known_words(index).contains(
            first_token(#[trigger] kept_lines(known_words(index), corpus)[i]),
        ) by {
        assert(keeps_line(known_words(index), kept_lines(known_words(index), corpus)[i]));
    }
}

/// The word that the lexical filter takes from a dictionary index line: its
/// first token, unless the line starts with two spaces, the token is three
/// characters or shorter, or it holds a character that is not an ASCII letter.
pub open spec fn lexical_word(line: Seq<char>) -> Option<Seq<char>> {
    let t = first_token(line);
    if line.len() >= 2 && line[0] == ' ' && line[1] == ' ' {
        None
    } else if t.len() > 3 && forall|k: int| 0 <= k < t.len() ==> is_ascii_letter(#[trigger] t[k]) {
        Some(t)
    } else {
        None
    }
}

/// The words that the lexical filter takes from the lines, in order.
pub open spec fn lexical_words(lines: Seq<Seq<char>>) -> Seq<Seq<char>>
    decreases lines.len(),
{
    if lines.len() == 0 {
        Seq::empty()
    } else {
        let rest = lexical_words(lines.drop_last());
        match lexical_word(lines.last()) {
            Some(w) => rest.push(w),
            None => rest,
        }
    }
}

/// Builds a word list from a dictionary index alone: the first token of each
/// entry line, when it is longer than three characters and all ASCII letters.
pub fn lexical_word_list(index_lines: &Vec<String>) -> (r: Vec<String>)
    ensures
        lines_view(r@) == lexical_words(lines_view(index_lines@)),
        forall|i: int| 0 <= i < r@.len() ==> (#[trigger] r@[i])@.len() > 3,
        forall|i: int, k: int| 0 <= i < r@.len() && 0 <= k < r@[i]@.len()
            ==> is_ascii_letter(#[trigger] r@[i]@[k]),
{
    let ghost index = lines_view(index_lines@);
    let mut out: Vec<String> = Vec::new();
    let mut i: usize = 0;
    while i < index_lines.len()
        invariant
            i <= index_lines.len(),
            index == lines_view(index_lines@),
            lines_view(out@) == lexical_words(index.take(i as int)),
            forall|j: int| 0 <= j < out@.len() ==> (#[trigger] out@[j])@.len() > 3,
            forall|j: int, k: int| 0 <= j < out@.len() && 0 <= k < out@[j]@.len()
                ==> is_ascii_letter(#[trigger] out@[j]@[k]),
        decreases index_lines.len() - i,
    {
        let ghost before = out@;
        assert(index.take(i + 1).drop_last() =~= index.take(i as int));
        let line = index_lines[i].as_str();
        let n = line.unicode_len();
        let indented = n >= 2 && line.get_char(0) == ' ' && line.get_char(1) == ' ';
        if !indented {
            let word = first_word(line);
            let len = word.unicode_len();
            if len > 3 {
                let mut all_letters = true;
                let mut k: usize = 0;
                while k < len
                    invariant
                        len == word@.len(),
                        k <= len,
                        all_letters == forall|m: int| 0 <= m < k ==> is_ascii_letter(#[trigger] word@[m]),
                    decreases len - k,
                {
                    if !is_ascii_letter_char(word.get_char(k)) {
                        all_letters = false;
                    }
                    k = k + 1;
                }
                if all_letters {
                    out.push(word);
                    assert(lines_view(out@) =~= lines_view(before).push(out@.last()@));
                }
            }
        }
        i = i + 1;
    }
    assert(index.take(index_lines.len() as int) =~= index);
    out
}

/// The text of a word-list file: each line followed by a newline.
pub open spec fn file_text(lines: Seq<Seq<char>>) -> Seq<char>
    decreases lines.len(),
{
    if lines.len() == 0 {
        Seq::empty()
    } else {
        file_text(lines.drop_last()) + lines.last() + seq!['\n']
    }
}

/// Renders word-list lines as the text of their file.
pub fn word_list_text(lines: &Vec<String>) -> (r: String)
    ensures
        r@ == file_text(lines_view(lines@)),
{
    let ghost all = lines_view(lines@);
    let mut out = String::new();
    let mut i: usize = 0;
    while i < lines.len()
        invariant
            i <= lines.len(),
            all == lines_view(lines@),
            out@ == file_text(all.take(i as int)),
        decreases lines.len() - i,
    {
        assert(all.take(i + 1).drop_last() =~= all.take(i as int));
        out.append(lines[i].as_str());
        out.append("\n");
        proof {
            reveal_strlit("\n");
        }
        i = i + 1;
    }
    assert(all.take(lines.len() as int) =~= all);
    out
}

} // verus!
