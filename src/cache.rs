//! The on-disk cache of derived word lists: file names and the decision to
//! rebuild it.
use vstd::prelude::*;

use crate::words::PartOfSpeech;

verus! {

/// The derived word-list file of a part of speech.
pub open spec fn word_list_file(pos: PartOfSpeech) -> Seq<char> {
    match pos {
        PartOfSpeech::Adjective => "adjectives.txt"@,
        PartOfSpeech::Noun => "nouns.txt"@,
        PartOfSpeech::Verb => "verbs.txt"@,
        PartOfSpeech::Adverb => "adverbs.txt"@,
    }
}

/// The dictionary index file of a part of speech.
pub open spec fn index_file(pos: PartOfSpeech) -> Seq<char> {
    match pos {
        PartOfSpeech::Adjective => "index.adj"@,
        PartOfSpeech::Noun => "index.noun"@,
        PartOfSpeech::Verb => "index.verb"@,
        PartOfSpeech::Adverb => "index.adv"@,
    }
}

/// The parts of speech, in passphrase order.
pub fn parts_of_speech() -> (r: Vec<PartOfSpeech>)
    ensures
        r@ == seq![PartOfSpeech::Adjective, PartOfSpeech::Noun, PartOfSpeech::Verb, PartOfSpeech::Adverb],
{
    vec![PartOfSpeech::Adjective, PartOfSpeech::Noun, PartOfSpeech::Verb, PartOfSpeech::Adverb]
}

/// The name of the derived word-list file of a part of speech.
pub fn word_list_file_name(pos: PartOfSpeech) -> (r: &'static str)
    ensures
        r@ == word_list_file(pos),
{
    match pos {
        PartOfSpeech::Adjective => "adjectives.txt",
        PartOfSpeech::Noun => "nouns.txt",
        PartOfSpeech::Verb => "verbs.txt",
        PartOfSpeech::Adverb => "adverbs.txt",
    }
}

/// The name of the dictionary index file of a part of speech.
pub fn index_file_name(pos: PartOfSpeech) -> (r: &'static str)
    ensures
        r@ == index_file(pos),
{
    match pos {
        PartOfSpeech::Adjective => "index.adj",
        PartOfSpeech::Noun => "index.noun",
        PartOfSpeech::Verb => "index.verb",
        PartOfSpeech::Adverb => "index.adv",
    }
}

/// One of `files` is named `name`.
pub open spec fn is_listed(files: Seq<String>, name: Seq<char>) -> bool {
    exists|i: int| 0 <= i < files.len() && (#[trigger] files[i])@ == name
}

/// All four derived word-list files are among `files`.
pub open spec fn all_word_lists_listed(files: Seq<String>) -> bool {
    forall|pos: PartOfSpeech| #[trigger] is_listed(files, word_list_file(pos))
}

fn lists_file(files: &Vec<String>, name: &str) -> (r: bool)
    ensures
        r == is_listed(files@, name@),
{
    let wanted = String::from_str(name);
    let mut i: usize = 0;
    while i < files.len()
        invariant
            i <= files.len(),
            wanted@ == name@,
            forall|k: int| 0 <= k < i ==> (#[trigger] files@[k])@ != name@,
        decreases files.len() - i,
    {
        if files[i].eq(&wanted) {
            return true;
        }
        i = i + 1;
    }
    false
}

/// Whether the cache is complete: all four derived word-list files are among
/// the names of the files present in the storage directory. What the files
/// hold does not matter.
pub fn word_lists_exist(present_files: &Vec<String>) -> (r: bool)
    ensures
        r == all_word_lists_listed(present_files@),
{
    let adjectives = lists_file(present_files, word_list_file_name(PartOfSpeech::Adjective));
    let nouns = lists_file(present_files, word_list_file_name(PartOfSpeech::Noun));
    let verbs = lists_file(present_files, word_list_file_name(PartOfSpeech::Verb));
    let adverbs = lists_file(present_files, word_list_file_name(PartOfSpeech::Adverb));
    proof {
        if !(adjectives && nouns && verbs && adverbs) {
            if !adjectives {
                assert(!is_listed(present_files@, word_list_file(PartOfSpeech::Adjective)));
            } else if !nouns {
                assert(!is_listed(present_files@, word_list_file(PartOfSpeech::Noun)));
            } else if !verbs {
                assert(!is_listed(present_files@, word_list_file(PartOfSpeech::Verb)));
            } else {
                assert(!is_listed(present_files@, word_list_file(PartOfSpeech::Adverb)));
            }
        } else {
            assert forall|pos: PartOfSpeech| #[trigger] is_listed(present_files@, word_list_file(pos)) by {
                match pos {
                    PartOfSpeech::Adjective => {},
                    PartOfSpeech::Noun => {},
                    PartOfSpeech::Verb => {},
                    PartOfSpeech::Adverb => {},
                }
            }
        }
    }
    adjectives && nouns && verbs && adverbs
}

/// The word lists are fetched and built again when the cache is incomplete
/// or a rebuild is forced.
pub fn needs_rebuild(present_files: &Vec<String>, force: bool) -> (r: bool)
    ensures
        r == (force || !all_word_lists_listed(present_files@)),
{
    force || !word_lists_exist(present_files)
}

} // verus!
