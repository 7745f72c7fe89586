use lansend::exclude::{
    compile_patterns, decode_excludes, encode_excludes, is_excluded, resolve_excludes,
};

fn list(items: &[&str]) -> Vec<String> {
    items.iter().map(|s| s.to_string()).collect()
}

#[test]
fn compile_patterns_drops_what_does_not_compile() {
    let patterns = compile_patterns(&list(&["*.log", "a**b", "[", "src/*", "***"]));
    let texts: Vec<&str> = patterns.iter().map(|p| p.as_str()).collect();
    assert_eq!(texts, vec!["*.log", "src/*"]);
}

#[test]
fn is_excluded_matches_the_whole_path() {
    let patterns = compile_patterns(&list(&["*.log"]));
    assert!(is_excluded(&patterns, "skip.log"));
    assert!(is_excluded(&patterns, "src/skip.log"));
    assert!(!is_excluded(&patterns, "src/keep.txt"));
    assert!(!is_excluded(&patterns, "skip.log.txt"));
}

#[test]
fn is_excluded_bare_name_matches_only_the_top_level_entry() {
    let bare = compile_patterns(&list(&["node_modules"]));
    assert!(is_excluded(&bare, "node_modules"));
    assert!(!is_excluded(&bare, "node_modules/left-pad/index.js"));
    assert!(!is_excluded(&bare, "project/node_modules"));
    let nested = compile_patterns(&list(&["**/node_modules/**"]));
    assert!(is_excluded(&nested, "project/node_modules/left-pad/index.js"));
    assert!(!is_excluded(&nested, "project/src/index.js"));
}

#[test]
fn is_excluded_is_false_without_patterns() {
    let none = compile_patterns(&Vec::new());
    assert!(!is_excluded(&none, "anything"));
    let broken = compile_patterns(&list(&["["]));
    assert!(!is_excluded(&broken, "["));
}

#[test]
fn is_excluded_tries_every_pattern() {
    let patterns = compile_patterns(&list(&["*.tmp", "build/*", "?.md"]));
    assert!(is_excluded(&patterns, "build/out.o"));
    assert!(is_excluded(&patterns, "a.md"));
    assert!(!is_excluded(&patterns, "ab.md"));
}

#[test]
fn encode_excludes_of_nothing_stores_nothing() {
    assert_eq!(encode_excludes(&Vec::new()), None);
}

#[test]
fn encode_excludes_writes_a_json_array() {
    assert_eq!(
        encode_excludes(&list(&["*.log", "a\"b"])),
        Some("[\"*.log\",\"a\\\"b\"]".to_string())
    );
    assert_eq!(encode_excludes(&list(&[""])), Some("[\"\"]".to_string()));
}

#[test]
fn encode_excludes_stores_whatever_the_patterns_hold() {
    let odd = list(&["\u{0}\u{1f}", "\\\"/", "žluť\u{1F600}", "\n\t", "[", "***"]);
    let stored = encode_excludes(&odd);
    assert!(stored.is_some());
    assert_eq!(decode_excludes(&stored), odd);
    let many: Vec<String> = (0..2000).map(|i| format!("pattern-{}/**", i)).collect();
    assert_eq!(decode_excludes(&encode_excludes(&many)), many);
}

#[test]
fn decode_excludes_reads_a_json_array() {
    let stored = Some("[\"*.log\", \"build/*\"]".to_string());
    assert_eq!(decode_excludes(&stored), list(&["*.log", "build/*"]));
}

#[test]
fn decode_excludes_of_nothing_or_nonsense_is_empty() {
    assert!(decode_excludes(&None).is_empty());
    assert!(decode_excludes(&Some("not json".to_string())).is_empty());
    assert!(decode_excludes(&Some("{\"a\":1}".to_string())).is_empty());
    assert!(decode_excludes(&Some("[1,2]".to_string())).is_empty());
}

#[test]
fn excludes_round_trip_through_their_stored_form() {
    let given = list(&["*.log", "**/target/**", "ž\\u"]);
    let stored = encode_excludes(&given);
    assert_eq!(decode_excludes(&stored), given);
}

#[test]
fn resolve_excludes_prefers_given_patterns_and_stores_them() {
    let stored = Some("[\"old\"]".to_string());
    let choice = resolve_excludes(list(&["*.log"]), &stored);
    assert_eq!(choice.patterns, list(&["*.log"]));
    assert_eq!(choice.persist, Some("[\"*.log\"]".to_string()));
}

#[test]
fn resolve_excludes_falls_back_to_stored_patterns() {
    let stored = Some("[\"old\",\"older\"]".to_string());
    let choice = resolve_excludes(Vec::new(), &stored);
    assert_eq!(choice.patterns, list(&["old", "older"]));
    assert_eq!(choice.persist, None);
    let nothing = resolve_excludes(Vec::new(), &None);
    assert!(nothing.patterns.is_empty());
    assert_eq!(nothing.persist, None);
}
