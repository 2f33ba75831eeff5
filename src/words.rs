//! Word entries and the parsing of cached word-list files.
use vstd::prelude::*;

use crate::number::{parse_u32, read_u32};
use crate::text::{first_token, first_two_words, second_token};

verus! {

/// One word of a word list with its observed usage frequency.
pub struct WordEntry {
    pub word: String,
    pub frequency: u32,
}

/// The four part-of-speech word lists that passphrases are drawn from.
pub struct WordLists {
    pub adjectives: Vec<WordEntry>,
    pub nouns: Vec<WordEntry>,
    pub verbs: Vec<WordEntry>,
    pub adverbs: Vec<WordEntry>,
}

/// A grammatical category, which fixes a word's slot in a passphrase.
#[derive(Clone, Copy, Debug, PartialEq, Eq, Structural)]
pub enum PartOfSpeech {
    Adjective,
    Noun,
    Verb,
    Adverb,
}

impl WordEntry {
    pub open spec fn view(&self) -> (Seq<char>, u32) {
        (self.word@, self.frequency)
    }
}

impl WordLists {
    /// The list of one part of speech.
    pub open spec fn list(&self, pos: PartOfSpeech) -> Seq<WordEntry> {
        match pos {
            PartOfSpeech::Adjective => self.adjectives@,
            PartOfSpeech::Noun => self.nouns@,
            PartOfSpeech::Verb => self.verbs@,
            PartOfSpeech::Adverb => self.adverbs@,
        }
    }

    /// The list of one part of speech.
    pub fn entries(&self, pos: PartOfSpeech) -> (r: &Vec<WordEntry>)
        ensures
            r@ == self.list(pos),
    {
        match pos {
            PartOfSpeech::Adjective => &self.adjectives,
            PartOfSpeech::Noun => &self.nouns,
            PartOfSpeech::Verb => &self.verbs,
            PartOfSpeech::Adverb => &self.adverbs,
        }
    }
}

/// The entry that a cached line holds: its first token as the word and its
/// second token read as the frequency. A line without both is no entry.
pub open spec fn parse_entry(line: Seq<char>) -> Option<(Seq<char>, u32)> {
    if first_token(line).len() > 0 && read_u32(second_token(line)) is Some {
        Some((first_token(line), read_u32(second_token(line))->0))
    } else {
        None
    }
}

/// The entries of the lines, in order, with the lines that hold none left out.
pub open spec fn parse_entries(lines: Seq<Seq<char>>) -> Seq<(Seq<char>, u32)>
    decreases lines.len(),
{
    if lines.len() == 0 {
        Seq::empty()
    } else {
        let rest = parse_entries(lines.drop_last());
        match parse_entry(lines.last()) {
            Some(e) => rest.push(e),
            None => rest,
        }
    }
}

pub open spec fn lines_view(lines: Seq<String>) -> Seq<Seq<char>> {
    lines.map_values(|l: String| l@)
}

pub open spec fn entries_view(entries: Seq<WordEntry>) -> Seq<(Seq<char>, u32)> {
    entries.map_values(|e: WordEntry| e@)
}

/// Parses one cached word-list line.
pub fn parse_word_entry(line: &str) -> (r: Option<WordEntry>)
    ensures
        match r {
            Some(e) => parse_entry(line@) == Some(e@),
            None => parse_entry(line@) is None,
        },
{
    let (word, freq) = first_two_words(line);
    if word.unicode_len() == 0 {
        return None;
    }
    match parse_u32(freq.as_str()) {
        Some(frequency) => Some(WordEntry { word, frequency }),
        None => None,
    }
}

/// Parses the lines of a cached word-list file into entries, skipping the
/// lines that do not hold a word and a frequency.
pub fn load_word_list(lines: &Vec<String>) -> (r: Vec<WordEntry>)
    ensures
        entries_view(r@) == parse_entries(lines_view(lines@)),
{
    let mut out: Vec<WordEntry> = Vec::new();
    let mut i: usize = 0;
    while i < lines.len()
        invariant
            i <= lines.len(),
            entries_view(out@) == parse_entries(lines_view(lines@.take(i as int))),
        decreases lines.len() - i,
    {
        let ghost before = out@;
        assert(lines_view(lines@.take(i + 1)).drop_last() =~= lines_view(lines@.take(i as int)));
        match parse_word_entry(lines[i].as_str()) {
            Some(e) => {
                out.push(e);
                assert(entries_view(out@) =~= entries_view(before).push(out@.last()@));
            },
            None => {},
        }
        i = i + 1;
    }
    assert(lines@.take(lines.len() as int) =~= lines@);
    out
}

/// Builds the four lists from the lines of their cached files.
pub fn load_all_word_lists(
    adjective_lines: &Vec<String>,
    noun_lines: &Vec<String>,
    verb_lines: &Vec<String>,
    adverb_lines: &Vec<String>,
) -> (r: WordLists)
    ensures
        entries_view(r.adjectives@) == parse_entries(lines_view(adjective_lines@)),
        entries_view(r.nouns@) == parse_entries(lines_view(noun_lines@)),
        entries_view(r.verbs@) == parse_entries(lines_view(verb_lines@)),
        entries_view(r.adverbs@) == parse_entries(lines_view(adverb_lines@)),
{
    WordLists {
        adjectives: load_word_list(adjective_lines),
        nouns: load_word_list(noun_lines),
        verbs: load_word_list(verb_lines),
        adverbs: load_word_list(adverb_lines),
    }
}

} // verus!
