//! Assembling passphrases from randomly chosen words.
use vstd::prelude::*;
use inflector::string::pluralize::to_plural;
use rand::rngs::StdRng;
use rand::seq::IndexedRandom;
use rand::Rng;

use crate::number::{decimal, push_decimal};
use crate::words::{PartOfSpeech, WordEntry, WordLists};

verus! {

#[verifier::external_type_specification]
#[verifier::external_body]
pub struct ExStdRng(StdRng);

/// The English plural of a word, as the inflector crate forms it.
pub uninterp spec fn plural_of(s: Seq<char>) -> Seq<char>;

/// Relies on `inflector::string::pluralize::to_plural`: the plural depends on
/// the word alone.
#[verifier::external_body]
fn pluralize(word: &str) -> (r: String)
    ensures
        r@ == plural_of(word@),
{
    to_plural(word)
}

/// Relies on `rand::Rng::random_range`: a value drawn from `lo..hi`, which
/// must not be empty.
#[verifier::external_body]
fn random_number(rng: &mut StdRng, lo: u32, hi: u32) -> (r: u32)
    requires
        lo < hi,
    ensures
        lo <= r < hi,
{
    rng.random_range(lo..hi)
}

/// Relies on `rand::seq::IndexedRandom::choose`: `None` for an empty slice,
/// else one of its items.
#[verifier::external_body]
fn choose_item(rng: &mut StdRng, items: &Vec<usize>) -> (r: Option<usize>)
    ensures
        r is None <==> items@.len() == 0,
        r is Some ==> items@.contains(r->0),
{
    items.choose(rng).copied()
}

/// The smallest number drawn for a passphrase.
pub const NUMBER_LOW: u32 = 1;

/// One past the largest number drawn for a passphrase.
pub const NUMBER_HIGH: u32 = 999;

/// Some entry of the list is more frequent than the threshold.
pub open spec fn has_candidate(entries: Seq<WordEntry>, min_frequency: u32) -> bool {
    exists|k: int| 0 <= k < entries.len() && (#[trigger] entries[k]).frequency > min_frequency
}

/// `w` may be drawn from the list: it is the word of an entry more frequent
/// than the threshold, or empty where there is no such entry.
pub open spec fn is_pick(entries: Seq<WordEntry>, min_frequency: u32, w: Seq<char>) -> bool {
    if has_candidate(entries, min_frequency) {
        exists|k: int| 0 <= k < entries.len() && (#[trigger] entries[k]).frequency > min_frequency
            && entries[k].word@ == w
    } else {
        w.len() == 0
    }
}

/// The noun as it stands beside the number: in the plural when the number is
/// above one and the noun is not empty.
pub open spec fn noun_form(num: u32, noun: Seq<char>) -> Seq<char> {
    if num > 1 && noun.len() > 0 {
        plural_of(noun)
    } else {
        noun
    }
}

/// The passphrase text `{num}-{adjective}-{noun}-{verb}-{adverb}`.
pub open spec fn password_text(
    num: u32,
    adjective: Seq<char>,
    noun: Seq<char>,
    verb: Seq<char>,
    adverb: Seq<char>,
) -> Seq<char> {
    decimal(num as nat) + seq!['-'] + adjective + seq!['-'] + noun + seq!['-'] + verb + seq!['-']
        + adverb
}

/// The positions, in increasing order, of the entries more frequent than
/// the threshold.
pub fn candidate_indices(entries: &Vec<WordEntry>, min_frequency: u32) -> (r: Vec<usize>)
    ensures
        forall|i: int| 0 <= i < r@.len() ==> (#[trigger] r@[i]) < entries@.len()
            && entries@[r@[i] as int].frequency > min_frequency,
        forall|i: int, j: int| 0 <= i < j < r@.len() ==> r@[i] < r@[j],
        forall|k: int| 0 <= k < entries@.len() && (#[trigger] entries@[k]).frequency > min_frequency
            ==> r@.contains(k as usize),
{
    let mut out: Vec<usize> = Vec::new();
    let mut k: usize = 0;
    while k < entries.len()
        invariant
            k <= entries.len(),
            forall|i: int| 0 <= i < out@.len() ==> (#[trigger] out@[i]) < k
                && entries@[out@[i] as int].frequency > min_frequency,
            forall|i: int, j: int| 0 <= i < j < out@.len() ==> out@[i] < out@[j],
            forall|m: int| 0 <= m < k && (#[trigger] entries@[m]).frequency > min_frequency
                ==> out@.contains(m as usize),
        decreases entries.len() - k,
    {
        if entries[k].frequency > min_frequency {
            let ghost before = out@;
            out.push(k);
            assert forall|m: int| 0 <= m < k + 1 && (#[trigger] entries@[m]).frequency > min_frequency
                implies out@.contains(m as usize) by {
                if m < k {
                    let i = choose|i: int| 0 <= i < before.len() && before[i] == m as usize;
                    assert(out@[i] == m as usize);
                } else {
                    assert(out@[out@.len() - 1] == m as usize);
                }
            }
        }
        k = k + 1;
    }
    out
}

/// Whether some entry is more frequent than `min_frequency`; where none is,
/// the passphrase field of that list stays empty.
pub fn has_word_above(entries: &Vec<WordEntry>, min_frequency: u32) -> (r: bool)
    ensures
        r == has_candidate(entries@, min_frequency),
{
    let candidates = candidate_indices(entries, min_frequency);
    if candidates.len() > 0 {
        assert(entries@[candidates@[0] as int].frequency > min_frequency);
        true
    } else {
        assert forall|k: int| 0 <= k < entries@.len() implies !((#[trigger] entries@[k]).frequency
            > min_frequency) by {
            if entries@[k].frequency > min_frequency {
                assert(candidates@.contains(k as usize));
            }
        }
        false
    }
}

/// Draws one word among the entries more frequent than `min_frequency`, or
/// gives the empty string when there is none.
pub fn pick_random_above_frequency(
    entries: &Vec<WordEntry>,
    min_frequency: u32,
    rng: &mut StdRng,
) -> (r: String)
    ensures
        is_pick(entries@, min_frequency, r@),
{
    let candidates = candidate_indices(entries, min_frequency);
    match choose_item(rng, &candidates) {
        Some(k) => {
            let ghost i = choose|i: int| 0 <= i < candidates@.len() && candidates@[i] == k;
            assert(entries@[k as int].frequency > min_frequency);
            entries[k].word.clone()
        },
        None => {
            assert forall|k: int| 0 <= k < entries@.len() implies !((#[trigger] entries@[k]).frequency
                > min_frequency) by {
                if entries@[k].frequency > min_frequency {
                    assert(candidates@.contains(k as usize));
                }
            }
            String::new()
        },
    }
}

/// Joins the number and the four words, with the noun as it is to stand.
pub fn join_password(num: u32, adjective: &str, noun: &str, verb: &str, adverb: &str) -> (r: String)
    ensures
        r@ == password_text(num, adjective@, noun@, verb@, adverb@),
{
    let mut out = String::new();
    push_decimal(num, &mut out);
    out.append("-");
    out.append(adjective);
    out.append("-");
    out.append(noun);
    out.append("-");
    out.append(verb);
    out.append("-");
    out.append(adverb);
    proof {
        reveal_strlit("-");
        assert(out@ =~= password_text(num, adjective@, noun@, verb@, adverb@));
    }
    out
}

/// Puts the noun in the form that the number asks for.
pub fn noun_for_number(num: u32, noun: &str) -> (r: String)
    ensures
        r@ == noun_form(num, noun@),
{
    if num > 1 && noun.unicode_len() > 0 {
        pluralize(noun)
    } else {
        String::from_str(noun)
    }
}

/// The passphrase for a drawn number and drawn words.
pub fn build_password(num: u32, adjective: &str, noun: &str, verb: &str, adverb: &str) -> (r: String)
    ensures
        r@ == password_text(num, adjective@, noun_form(num, noun@), verb@, adverb@),
{
    let noun_text = noun_for_number(num, noun);
    join_password(num, adjective, noun_text.as_str(), verb, adverb)
}

/// Generates one passphrase: a number drawn from `1..999`, then one word of
/// each part of speech drawn among the entries more frequent than
/// `min_frequency`, the noun in the plural when the number is above one.
pub fn generate_password(word_lists: &WordLists, min_frequency: u32, rng: &mut StdRng) -> (r: String)
    ensures
        exists|num: u32, adjective: Seq<char>, noun: Seq<char>, verb: Seq<char>, adverb: Seq<char>|
            NUMBER_LOW <= num < NUMBER_HIGH
                && is_pick(word_lists.list(PartOfSpeech::Adjective), min_frequency, adjective)
                && is_pick(word_lists.list(PartOfSpeech::Noun), min_frequency, noun)
                && is_pick(word_lists.list(PartOfSpeech::Verb), min_frequency, verb)
                && is_pick(word_lists.list(PartOfSpeech::Adverb), min_frequency, adverb)
                && #[trigger] password_text(num, adjective, noun_form(num, noun), verb, adverb) == r@,
{
    let num = random_number(rng, NUMBER_LOW, NUMBER_HIGH);
    let adjective = pick_random_above_frequency(word_lists.entries(PartOfSpeech::Adjective), min_frequency, rng);
    let noun = pick_random_above_frequency(word_lists.entries(PartOfSpeech::Noun), min_frequency, rng);
    let verb = pick_random_above_frequency(word_lists.entries(PartOfSpeech::Verb), min_frequency, rng);
    let adverb = pick_random_above_frequency(word_lists.entries(PartOfSpeech::Adverb), min_frequency, rng);
    let r = build_password(num, adjective.as_str(), noun.as_str(), verb.as_str(), adverb.as_str());
    assert(password_text(num, adjective@, noun_form(num, noun@), verb@, adverb@) == r@);
    r
}

/// How many times `c` occurs in `s`.
pub open spec fn count_char(s: Seq<char>, c: char) -> nat
    decreases s.len(),
{
    if s.len() == 0 {
        0
    } else {
        count_char(s.drop_last(), c) + if s.last() == c { 1nat } else { 0nat }
    }
}

proof fn lemma_count_concat(a: Seq<char>, b: Seq<char>, c: char)
    ensures
        count_char(a + b, c) == count_char(a, c) + count_char(b, c),
    decreases b.len(),
{
    if b.len() == 0 {
        assert(a + b =~= a);
    } else {
        lemma_count_concat(a, b.drop_last(), c);
        assert((a + b).drop_last() =~= a + b.drop_last());
    }
}

proof fn lemma_decimal_has_no_hyphen(n: nat)
    ensures
        count_char(decimal(n), '-') == 0,
        decimal(n).len() > 0,
    decreases n,
{
    if n >= 10 {
        lemma_decimal_has_no_hyphen(n / 10);
        assert(decimal(n).drop_last() =~= decimal(n / 10));
        assert(decimal(n).last() != '-');
    } else {
        assert(decimal(n).drop_last() =~= Seq::<char>::empty());
        assert(count_char(Seq::<char>::empty(), '-') == 0);
        assert(decimal(n).last() != '-');
    }
}

/// When none of the words holds a hyphen, a passphrase holds exactly four
/// hyphens, so it splits into five fields, the first one the number.
pub proof fn lemma_password_has_five_fields(
    num: u32,
    adjective: Seq<char>,
    noun: Seq<char>,
    verb: Seq<char>,
    adverb: Seq<char>,
)
    requires
        count_char(adjective, '-') == 0,
        count_char(noun, '-') == 0,
        count_char(verb, '-') == 0,
        count_char(adverb, '-') == 0,
    ensures
        count_char(password_text(num, adjective, noun, verb, adverb), '-') == 4,
        password_text(num, adjective, noun, verb, adverb).take(decimal(num as nat).len() as int)
            == decimal(num as nat),
{
    let h = seq!['-'];
    assert(count_char(h, '-') == 1) by {
        assert(h.drop_last() =~= Seq::<char>::empty());
        assert(count_char(Seq::<char>::empty(), '-') == 0);
    }
    lemma_decimal_has_no_hyphen(num as nat);
    let d = decimal(num as nat);
    lemma_count_concat(d, h, '-');
    lemma_count_concat(d + h, adjective, '-');
    lemma_count_concat(d + h + adjective, h, '-');
    lemma_count_concat(d + h + adjective + h, noun, '-');
    lemma_count_concat(d + h + adjective + h + noun, h, '-');
    lemma_count_concat(d + h + adjective + h + noun + h, verb, '-');
    lemma_count_concat(d + h + adjective + h + noun + h + verb, h, '-');
    lemma_count_concat(d + h + adjective + h + noun + h + verb + h, adverb, '-');
    assert(password_text(num, adjective, noun, verb, adverb).take(d.len() as int) =~= d);
}

/// The noun is never put in the plural beside the number one, and always
/// beside a larger number when it is not empty.
pub proof fn lemma_plural_only_above_one(num: u32, noun: Seq<char>)
    ensures
        num == 1 ==> noun_form(num, noun) == noun,
        num > 1 && noun.len() > 0 ==> noun_form(num, noun) == plural_of(noun),
{
}

/// `w` may be drawn from the bare word list: one of its words, or the
/// fallback where the list is empty.
pub open spec fn is_plain_pick(words: Seq<String>, fallback: Seq<char>, w: Seq<char>) -> bool {
    if words.len() == 0 {
        w == fallback
    } else {
        exists|k: int| 0 <= k < words.len() && (#[trigger] words[k])@ == w
    }
}

/// The passphrase text `{adjective}-{noun}-{verb}-{adverb}`.
pub open spec fn plain_password_text(
    adjective: Seq<char>,
    noun: Seq<char>,
    verb: Seq<char>,
    adverb: Seq<char>,
) -> Seq<char> {
    adjective + seq!['-'] + noun + seq!['-'] + verb + seq!['-'] + adverb
}

/// Draws one word of a bare word list, or gives `fallback` when it is empty.
pub fn pick_random_word(words: &Vec<String>, fallback: &str, rng: &mut StdRng) -> (r: String)
    ensures
        is_plain_pick(words@, fallback@, r@),
{
    let mut all: Vec<usize> = Vec::new();
    let mut k: usize = 0;
    while k < words.len()
        invariant
            k <= words.len(),
            all@.len() == k,
            forall|i: int| 0 <= i < k ==> #[trigger] all@[i] == i,
        decreases words.len() - k,
    {
        all.push(k);
        k = k + 1;
    }
    match choose_item(rng, &all) {
        Some(i) => {
            let ghost j = choose|j: int| 0 <= j < all@.len() && all@[j] == i;
            words[i].clone()
        },
        None => String::from_str(fallback),
    }
}

/// Generates one passphrase of the lexical variant from bare word lists: one
/// word of each list, or `quick`, `fox`, `jumps`, `swiftly` for an empty one.
pub fn generate_plain_password(
    adjectives: &Vec<String>,
    nouns: &Vec<String>,
    verbs: &Vec<String>,
    adverbs: &Vec<String>,
    rng: &mut StdRng,
) -> (r: String)
    ensures
        exists|adjective: Seq<char>, noun: Seq<char>, verb: Seq<char>, adverb: Seq<char>|
            is_plain_pick(adjectives@, "quick"@, adjective)
                && is_plain_pick(nouns@, "fox"@, noun)
                && is_plain_pick(verbs@, "jumps"@, verb)
                && is_plain_pick(adverbs@, "swiftly"@, adverb)
                && #[trigger] plain_password_text(adjective, noun, verb, adverb) == r@,
{
    let adjective = pick_random_word(adjectives, "quick", rng);
    let noun = pick_random_word(nouns, "fox", rng);
    let verb = pick_random_word(verbs, "jumps", rng);
    let adverb = pick_random_word(adverbs, "swiftly", rng);
    let mut out = adjective.clone();
    out.append("-");
    out.append(noun.as_str());
    out.append("-");
    out.append(verb.as_str());
    out.append("-");
    out.append(adverb.as_str());
    proof {
        reveal_strlit("-");
        assert(out@ =~= plain_password_text(adjective@, noun@, verb@, adverb@));
    }
    out
}

} // verus!
