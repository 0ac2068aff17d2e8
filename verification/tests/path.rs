use fluent_resmgr::path::resolve_path;
use fluent_resmgr::text::{chars_of, replace_all, same_text};

#[test]
fn both_placeholders_are_filled_in() {
    assert_eq!(
        resolve_path("./tests/resources/{locale}/{res_id}", "test.ftl", "en-US"),
        "./tests/resources/en-US/test.ftl"
    );
    assert_eq!(resolve_path("{res_id}.{locale}", "menu", "pl"), "menu.pl");
}

#[test]
fn every_occurrence_is_filled_in() {
    assert_eq!(
        resolve_path("{locale}/{locale}/{res_id}-{res_id}{locale}", "a", "de"),
        "de/de/a-ade"
    );
}

#[test]
fn scheme_without_placeholders_is_kept() {
    assert_eq!(resolve_path("fixed/path.ftl", "a", "de"), "fixed/path.ftl");
    assert_eq!(resolve_path("", "a", "de"), "");
}

#[test]
fn other_braces_are_kept() {
    assert_eq!(resolve_path("{x}/{locale}/{}/{res_id}}", "a", "de"), "{x}/de/{}/a}");
    assert_eq!(resolve_path("{locale/{res_id", "a", "de"), "{locale/{res_id");
    assert_eq!(resolve_path("{{locale}}", "a", "de"), "{de}");
    assert_eq!(resolve_path("{Locale}/{RES_ID}", "a", "de"), "{Locale}/{RES_ID}");
}

#[test]
fn resource_ids_are_filled_in_after_locales() {
    assert_eq!(resolve_path("{locale}", "a", "{res_id}"), "a");
    assert_eq!(resolve_path("{res_id}", "{locale}", "de"), "{locale}");
}

#[test]
fn text_of_any_alphabet_is_kept() {
    assert_eq!(resolve_path("zasoby/{locale}/żółć/{res_id}", "główny", "pl"), "zasoby/pl/żółć/główny");
}

#[test]
fn replacement_resumes_after_each_occurrence() {
    assert_eq!(replace_all("aaa", "aa", "b"), "ba");
    assert_eq!(replace_all("aaaa", "aa", "b"), "bb");
    assert_eq!(replace_all("abab", "ab", "ab"), "abab");
    assert_eq!(replace_all("abcabc", "bc", ""), "aa");
    assert_eq!(replace_all("abc", "abcd", "x"), "abc");
    assert_eq!(replace_all("abc", "abc", "x"), "x");
    assert_eq!(replace_all("", "a", "x"), "");
    assert_eq!(replace_all("a", "a", "aa"), "aa");
}

#[test]
fn empty_pattern_replaces_nothing() {
    assert_eq!(replace_all("abc", "", "x"), "abc");
}

#[test]
fn texts_are_compared_by_their_characters() {
    assert!(same_text("", ""));
    assert!(same_text("one", "one"));
    assert!(!same_text("one", "on"));
    assert!(!same_text("one", "onE"));
    assert!(!same_text("one", "two"));
    assert!(same_text("żółć", "żółć"));
    assert_eq!(chars_of("aż!"), vec!['a', 'ż', '!']);
}
