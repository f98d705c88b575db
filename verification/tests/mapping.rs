use replace_words::sentence::MapSentence;
use replace_words::wordmap::WordMap;

// Returns a new WordMap instance with a known set of mapping data.
fn create_test_wordmap() -> WordMap {
    let mut wordmap = WordMap::new();
    // Set up some mapping values, each token in the first argument will
    // map to the second argument
    wordmap.add_map("ghi mno", "zigbee");
    wordmap.add_map("def stu vwx", "802.11s");
    wordmap
}

// Returns a new MapSentence instance with a known phrase.
fn create_test_mapsentence() -> MapSentence {
    let orig_phrase = "Abc DEF Ghi Jkl MNO Pqr STU Vwx YZA bcd eFg";
    MapSentence::new(orig_phrase)
}

// Returns a set of predictable output from using both a known original
// phrase and a known mapping.
fn get_mapsentence_results() -> (String, String, String, String) {
    let map_sentc = create_test_mapsentence();
    let wordmap = create_test_wordmap();
    map_sentc.mapit(&wordmap)
}

// Takes the given string of comma+space separated tokens, breaks them up,
// sorts them, and reforms them into a string for return.
fn sorted_toks(in_string: String) -> String {
    let mut toks = in_string.split(", ").collect::<Vec<_>>();
    toks.sort();
    toks.join(", ")
}

#[test]
fn test_wordmap() {
    // Set up some mapping values, each token in the first argument will
    // map to the second argument
    let wordmap = create_test_wordmap();
    // Run the test mapping function and check the results
    let mapped = wordmap.run_map("abc def ghi jkl mno pqr stu vwx yza bcd");

    let mapped_chk = "abc+802.11s+zigbee+jkl+zigbee+pqr+802.11s+802.11s+yza+bcd";
    println!("\n   Mapped is: '{}'\n   Check is:  '{}'...", mapped, mapped_chk);
    assert_eq!(mapped, mapped_chk.to_string());
}

#[test]
fn test_wordmap_key_retrieval() {
    let tvec = vec!["vwx", "jkl", "mno", "xyz", "def"];
    let mut matches = Vec::new();
    let mut unmatched = Vec::new();
    let wordmap = create_test_wordmap();

    for k in &tvec {
        match wordmap.get(k) {
            Some(matched) => {
                let result = format!("{}:{}", k, matched);
                matches.push(result);
            }
            None => {
                unmatched.push(*k);
            }
        }
    }
    // Reference values
    let matched_chk = "vwx:802.11s, mno:zigbee, def:802.11s";
    let unmatched_chk = "jkl, xyz";
    assert_eq!(matches.join(", "), matched_chk.to_string());
    assert_eq!(unmatched.join(", "), unmatched_chk.to_string());
}

#[test]
fn test_mapsentence_original_phrase() {
    let (orig_string, _, _, _) = get_mapsentence_results();
    let orig_phrase_chk = "Abc DEF Ghi Jkl MNO Pqr STU Vwx YZA bcd eFg";
    assert_eq!(orig_string, orig_phrase_chk.to_string())
}

#[test]
fn test_mapsentence_mapped_string() {
    let (_, mapped_string, _, _) = get_mapsentence_results();
    let map_string_chk = "abc 802.11s zigbee jkl zigbee pqr 802.11s 802.11s yza bcd efg";
    assert_eq!(mapped_string, map_string_chk.to_string())
}

#[test]
fn test_mapsentence_tagged_words() {
    let (_, _, tagged, _) = get_mapsentence_results();
    let tagged_chk = "def, ghi, mno, stu, vwx";
    assert_eq!(sorted_toks(tagged), tagged_chk.to_string())
}

#[test]
fn test_mapsentence_untagged_words() {
    let (_, _, _, untagged) = get_mapsentence_results();
    let untagged_chk = "abc, bcd, efg, jkl, pqr, yza";
    assert_eq!(sorted_toks(untagged), untagged_chk.to_string())
}

#[test]
fn test_added_word_is_found() {
    let mut wordmap = WordMap::new();
    wordmap.add_map("w", "r");
    assert_eq!(wordmap.get("w"), Some("r"));
}

#[test]
fn test_absent_word_is_not_found() {
    let wordmap = create_test_wordmap();
    assert_eq!(wordmap.get("abc"), None);
    assert_eq!(WordMap::new().get("abc"), None);
}

#[test]
fn test_readding_overwrites() {
    let mut wordmap = WordMap::new();
    wordmap.add_map("w other", "first");
    wordmap.add_map("w", "second");
    assert_eq!(wordmap.get("w"), Some("second"));
    assert_eq!(wordmap.get("other"), Some("first"));
}

#[test]
fn test_mapit_twice_identical() {
    let map_sentc = create_test_mapsentence();
    let wordmap = create_test_wordmap();
    let first = map_sentc.mapit(&wordmap);
    let second = map_sentc.mapit(&wordmap);
    assert_eq!(first, second);
}

#[test]
fn test_mapit_case_insensitive() {
    let wordmap = create_test_wordmap();
    let upper = MapSentence::new("DEF").mapit(&wordmap);
    let lower = MapSentence::new("def").mapit(&wordmap);
    // The echoed originals differ in case; the mapped outcome does not.
    assert_eq!(upper.0, "DEF");
    assert_eq!(lower.0, "def");
    assert_eq!(upper.1, lower.1);
    assert_eq!(upper.1, "802.11s");
    assert_eq!(upper.2, lower.2);
    assert_eq!(upper.2, "def");
    assert_eq!(upper.3, lower.3);
    assert_eq!(upper.3, "");
}

#[test]
fn test_scenario_lookup() {
    let wordmap = create_test_wordmap();
    assert_eq!(wordmap.get("vwx"), Some("802.11s"));
    assert_eq!(wordmap.get("xyz"), None);
}

#[test]
fn test_empty_tokens() {
    // A key list with consecutive spaces registers empty-string words, and a
    // sentence with consecutive spaces contains empty-string tokens; both are
    // treated as ordinary words.
    let mut wordmap = WordMap::new();
    wordmap.add_map("", "EMPTY");
    assert_eq!(wordmap.get(""), Some("EMPTY"));

    let plain = WordMap::new();
    let result = MapSentence::new("a  b").mapit(&plain);
    assert_eq!(result.1, "a  b");
    assert_eq!(result.3, "a, , b");

    let mapped = MapSentence::new("a  b").mapit(&wordmap);
    assert_eq!(mapped.1, "a EMPTY b");
    assert_eq!(mapped.2, "");
}

#[test]
fn test_duplicate_words_reported_once() {
    let mut wordmap = WordMap::new();
    wordmap.add_map("dog", "PET");
    let result = MapSentence::new("Dog cat DOG cat dog").mapit(&wordmap);
    assert_eq!(result.1, "PET cat PET cat PET");
    assert_eq!(result.2, "dog");
    assert_eq!(result.3, "cat");
}

#[test]
fn test_run_map_no_case_fold() {
    // run_map maps the sentence as it stands, with no lowercasing.
    let mut wordmap = WordMap::new();
    wordmap.add_map("dog", "PET");
    assert_eq!(wordmap.run_map("Dog dog"), "Dog+PET");
}
