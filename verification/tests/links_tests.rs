use note_vault::links::{
    alias_pattern, exact_pattern, link_variants, scan_patterns, search_pattern, search_patterns,
    strip_md,
};

#[test]
fn note_in_a_folder_has_four_spellings() {
    assert_eq!(link_variants("folder/B.md"), vec!["folder/B.md", "folder/B", "B.md", "B"]);
}

#[test]
fn note_at_the_top_has_two_spellings() {
    assert_eq!(link_variants("B.md"), vec!["B.md", "B"]);
}

#[test]
fn path_without_extension_keeps_its_spellings_apart() {
    assert_eq!(link_variants("folder/B"), vec!["folder/B", "B"]);
    assert_eq!(link_variants("B"), vec!["B"]);
}

#[test]
fn empty_spellings_are_left_out() {
    assert_eq!(link_variants(""), Vec::<String>::new());
    assert_eq!(link_variants(".md"), vec![".md"]);
    assert_eq!(link_variants("folder/"), vec!["folder/"]);
    assert_eq!(link_variants("folder/.md"), vec!["folder/.md", "folder/", ".md"]);
}

#[test]
fn one_extension_is_removed() {
    assert_eq!(strip_md("a.md.md"), "a.md");
    assert_eq!(strip_md("a.md"), "a");
    assert_eq!(strip_md("a.MD"), "a.MD");
    assert_eq!(strip_md("md"), "md");
    assert_eq!(link_variants("x/a.md.md"), vec!["x/a.md.md", "x/a.md", "a.md.md", "a.md"]);
}

#[test]
fn search_pattern_escapes_the_spelling() {
    assert_eq!(search_pattern("B"), r"\[\[B(?:\s*\|[^\]]+)?\]\]");
    assert_eq!(search_pattern("folder/B.md"), r"\[\[folder/B\.md(?:\s*\|[^\]]+)?\]\]");
    assert_eq!(search_pattern("a+b (c)"), r"\[\[a\+b \(c\)(?:\s*\|[^\]]+)?\]\]");
}

#[test]
fn scan_patterns_are_plain_link_and_alias_start() {
    assert_eq!(exact_pattern("B.md"), r"\[\[B\.md\]\]");
    assert_eq!(alias_pattern("B.md"), r"\[\[B\.md\|");
    assert_eq!(
        scan_patterns("B.md"),
        vec![r"\[\[B\.md\]\]", r"\[\[B\.md\|", r"\[\[B\]\]", r"\[\[B\|"]
    );
}

#[test]
fn every_meta_character_is_escaped() {
    assert_eq!(
        exact_pattern(r"\.+*?()|[]{}^$#&-~"),
        r"\[\[\\\.\+\*\?\(\)\|\[\]\{\}\^\$\#\&\-\~\]\]"
    );
    assert_eq!(exact_pattern("a/b%c!d e"), r"\[\[a/b%c!d e\]\]");
}

#[test]
fn one_search_pattern_for_each_spelling() {
    assert_eq!(
        search_patterns("folder/B.md"),
        vec![
            r"\[\[folder/B\.md(?:\s*\|[^\]]+)?\]\]",
            r"\[\[folder/B(?:\s*\|[^\]]+)?\]\]",
            r"\[\[B\.md(?:\s*\|[^\]]+)?\]\]",
            r"\[\[B(?:\s*\|[^\]]+)?\]\]",
        ]
    );
}
