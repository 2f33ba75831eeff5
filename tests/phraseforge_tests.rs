use phraseforge::builder::{generate_word_list, lexical_word_list, word_list_text};
use phraseforge::cache::{index_file_name, needs_rebuild, word_list_file_name, word_lists_exist};
use phraseforge::generator::{
    build_password, generate_password, generate_plain_password, join_password, noun_for_number,
    pick_random_above_frequency, pick_random_word,
};
use phraseforge::number::{parse_u32, push_decimal};
use phraseforge::text::{first_two_words, first_word};
use phraseforge::words::{load_all_word_lists, load_word_list, PartOfSpeech, WordEntry, WordLists};
use rand::rngs::StdRng;
use rand::SeedableRng;

fn lines(v: &[&str]) -> Vec<String> {
    v.iter().map(|s| s.to_string()).collect()
}

fn entry(word: &str, frequency: u32) -> WordEntry {
    WordEntry { word: word.to_string(), frequency }
}

fn lists(adj: Vec<WordEntry>, noun: Vec<WordEntry>, verb: Vec<WordEntry>, adv: Vec<WordEntry>) -> WordLists {
    WordLists { adjectives: adj, nouns: noun, verbs: verb, adverbs: adv }
}

#[test]
fn frequency_builder_keeps_known_corpus_lines_in_order() {
    let index = lines(&["cat 1 n ...", "dog 1 n ..."]);
    let corpus = lines(&["cat 50000", "dog 5", "zzz 99999"]);
    assert_eq!(generate_word_list(&index, &corpus), lines(&["cat 50000", "dog 5"]));
}

#[test]
fn frequency_builder_follows_corpus_order_and_skips_non_letter_entries() {
    let index = lines(&["  1 This software", "dog 1 n", "_under 1 n", "cat 2 n", "", "9lives 1 n"]);
    let corpus = lines(&["dog 9", "_under 8", "9lives 7", "cat 6", "", "  cat   5", "cats 4"]);
    assert_eq!(generate_word_list(&index, &corpus), lines(&["dog 9", "cat 6", "  cat   5"]));
}

#[test]
fn frequency_builder_with_empty_inputs() {
    assert!(generate_word_list(&Vec::new(), &lines(&["cat 5"])).is_empty());
    assert!(generate_word_list(&lines(&["cat 1 n"]), &Vec::new()).is_empty());
}

#[test]
fn lexical_builder_keeps_long_alphabetic_words() {
    let index = lines(&[
        "  1 This software and database",
        "dog-eat 1 n",
        "cats 1 n",
        "x_ray 1 n",
        "ab 1 n",
        "tree1 1 n",
        "house 2 n",
        "abc 1 n",
        "Able 1 a",
    ]);
    let words = lexical_word_list(&index);
    assert_eq!(words, lines(&["cats", "house", "Able"]));
    for w in &words {
        assert!(w.len() > 3);
        assert!(w.chars().all(|c| c.is_ascii_alphabetic()));
    }
}

#[test]
fn load_word_list_skips_malformed_lines() {
    let file = lines(&[
        "cat 50000",
        "dog",
        "bad x",
        "  eel   12  extra",
        "big +5",
        "huge 4294967296",
        "max 4294967295",
        "",
        "neg -1",
    ]);
    let entries = load_word_list(&file);
    let got: Vec<(String, u32)> = entries.iter().map(|e| (e.word.clone(), e.frequency)).collect();
    assert_eq!(
        got,
        vec![
            ("cat".to_string(), 50000),
            ("eel".to_string(), 12),
            ("big".to_string(), 5),
            ("max".to_string(), 4294967295),
        ]
    );
}

#[test]
fn load_all_word_lists_fills_each_part_of_speech() {
    let w = load_all_word_lists(
        &lines(&["red 10"]),
        &lines(&["cat 20", "dog 30"]),
        &lines(&[]),
        &lines(&["fast 40"]),
    );
    assert_eq!(w.adjectives.len(), 1);
    assert_eq!(w.entries(PartOfSpeech::Noun).len(), 2);
    assert_eq!(w.entries(PartOfSpeech::Noun)[1].word, "dog");
    assert_eq!(w.entries(PartOfSpeech::Noun)[1].frequency, 30);
    assert!(w.verbs.is_empty());
    assert_eq!(w.adverbs[0].word, "fast");
}

#[test]
fn parse_u32_reads_like_std() {
    assert_eq!(parse_u32(""), None);
    assert_eq!(parse_u32("+"), None);
    assert_eq!(parse_u32("0"), Some(0));
    assert_eq!(parse_u32("007"), Some(7));
    assert_eq!(parse_u32("+12"), Some(12));
    assert_eq!(parse_u32("-1"), None);
    assert_eq!(parse_u32("12a"), None);
    assert_eq!(parse_u32("4294967295"), Some(4294967295));
    assert_eq!(parse_u32("4294967296"), None);
    assert_eq!(parse_u32("99999999999999999999999"), None);
}

#[test]
fn push_decimal_writes_digits() {
    let mut s = String::from("n=");
    push_decimal(0, &mut s);
    assert_eq!(s, "n=0");
    let mut t = String::new();
    push_decimal(4294967295, &mut t);
    assert_eq!(t, "4294967295");
    let mut u = String::new();
    push_decimal(908, &mut u);
    assert_eq!(u, "908");
}

#[test]
fn tokens_split_on_unicode_whitespace() {
    assert_eq!(first_word("  cat\t50000 x"), "cat");
    assert_eq!(first_word("   "), "");
    assert_eq!(first_two_words("cat\u{3000}12"), ("cat".to_string(), "12".to_string()));
    assert_eq!(first_two_words("solo"), ("solo".to_string(), String::new()));
}

#[test]
fn cache_exists_only_with_all_four_files() {
    let all = lines(&["nouns.txt", "adjectives.txt", "extra", "adverbs.txt", "verbs.txt"]);
    assert!(word_lists_exist(&all));
    let missing = lines(&["nouns.txt", "adjectives.txt", "adverbs.txt"]);
    assert!(!word_lists_exist(&missing));
    assert!(!word_lists_exist(&Vec::new()));
    assert!(!needs_rebuild(&all, false));
    assert!(needs_rebuild(&all, true));
    assert!(needs_rebuild(&missing, false));
}

#[test]
fn file_names_per_part_of_speech() {
    assert_eq!(word_list_file_name(PartOfSpeech::Adjective), "adjectives.txt");
    assert_eq!(word_list_file_name(PartOfSpeech::Adverb), "adverbs.txt");
    assert_eq!(index_file_name(PartOfSpeech::Noun), "index.noun");
    assert_eq!(index_file_name(PartOfSpeech::Verb), "index.verb");
}

#[test]
fn pick_above_frequency_gives_empty_when_nothing_qualifies() {
    let mut rng = StdRng::seed_from_u64(7);
    let entries = vec![entry("cat", 10), entry("dog", 20)];
    assert_eq!(pick_random_above_frequency(&entries, 20, &mut rng), "");
    assert_eq!(pick_random_above_frequency(&Vec::new(), 0, &mut rng), "");
    for _ in 0..20 {
        assert_eq!(pick_random_above_frequency(&entries, 15, &mut rng), "dog");
    }
}

#[test]
fn plural_only_beside_numbers_above_one() {
    assert_eq!(build_password(1, "big", "cat", "runs", "fast"), "1-big-cat-runs-fast");
    assert_eq!(build_password(2, "big", "cat", "runs", "fast"), "2-big-cats-runs-fast");
    assert_eq!(build_password(3, "big", "box", "runs", "fast"), "3-big-boxes-runs-fast");
    assert_eq!(build_password(5, "a", "", "v", "d"), "5-a--v-d");
    assert_eq!(noun_for_number(1, "ox"), "ox");
    assert_eq!(noun_for_number(998, "ox"), "oxen");
}

#[test]
fn join_password_with_empty_adjective() {
    assert_eq!(join_password(42, "", "house", "runs", "quickly"), "42--house-runs-quickly");
}

#[test]
fn empty_adjective_candidates_leave_first_word_empty() {
    let w = lists(
        vec![entry("red", 5), entry("blue", 6)],
        vec![entry("house", 1_000_000)],
        vec![entry("runs", 1_000_000)],
        vec![entry("quickly", 1_000_000)],
    );
    let mut rng = StdRng::seed_from_u64(1);
    for _ in 0..20 {
        let p = generate_password(&w, 999999, &mut rng);
        let fields: Vec<&str> = p.split('-').collect();
        assert_eq!(fields.len(), 5);
        let n: u32 = fields[0].parse().unwrap();
        assert!((1..999).contains(&n));
        assert_eq!(fields[1], "");
        assert_eq!(fields[2], if n > 1 { "houses" } else { "house" });
        assert_eq!(fields[3], "runs");
        assert_eq!(fields[4], "quickly");
    }
}

#[test]
fn generated_passwords_have_five_fields() {
    let w = lists(
        vec![entry("red", 50000), entry("blue", 60000), entry("rare", 1)],
        vec![entry("cat", 50000), entry("dog", 70000)],
        vec![entry("run", 20000)],
        vec![entry("fast", 30000), entry("slowly", 40000)],
    );
    let mut rng = StdRng::seed_from_u64(99);
    for _ in 0..50 {
        let p = generate_password(&w, 10000, &mut rng);
        let fields: Vec<&str> = p.split('-').collect();
        assert_eq!(fields.len(), 5);
        assert!(fields[1] == "red" || fields[1] == "blue");
        assert!(["cat", "cats", "dog", "dogs"].contains(&fields[2]));
        assert_eq!(fields[3], "run");
    }
}

#[test]
fn same_seed_gives_same_passwords() {
    let w = lists(
        vec![entry("red", 50000), entry("blue", 60000), entry("green", 70000)],
        vec![entry("cat", 50000), entry("dog", 70000), entry("fox", 80000)],
        vec![entry("run", 20000), entry("jump", 30000)],
        vec![entry("fast", 30000), entry("slowly", 40000)],
    );
    let mut a = StdRng::seed_from_u64(2024);
    let mut b = StdRng::seed_from_u64(2024);
    for _ in 0..10 {
        assert_eq!(generate_password(&w, 10000, &mut a), generate_password(&w, 10000, &mut b));
    }
}

#[test]
fn plain_password_uses_fallbacks_for_empty_lists() {
    let mut rng = StdRng::seed_from_u64(3);
    let empty: Vec<String> = Vec::new();
    assert_eq!(generate_plain_password(&empty, &empty, &empty, &empty, &mut rng), "quick-fox-jumps-swiftly");
    let p = generate_plain_password(&lines(&["tall"]), &empty, &lines(&["sing"]), &lines(&["loudly"]), &mut rng);
    assert_eq!(p, "tall-fox-sing-loudly");
    assert_eq!(pick_random_word(&lines(&["only"]), "none", &mut rng), "only");
}

#[test]
fn word_list_text_ends_each_line() {
    assert_eq!(word_list_text(&lines(&["cat 5", "dog 6"])), "cat 5\ndog 6\n");
    assert_eq!(word_list_text(&Vec::new()), "");
}
