use note_vault::path::{
    file_name_of, file_stem_of, final_segment_of, get_relative_path, is_markdown_path, join_path,
};

#[test]
fn join_puts_one_separator() {
    assert_eq!(join_path("/vault", "a.md"), "/vault/a.md");
    assert_eq!(join_path("/vault/", "a.md"), "/vault/a.md");
    assert_eq!(join_path("/vault", "sub/a.md"), "/vault/sub/a.md");
    assert_eq!(join_path("", "a.md"), "a.md");
    assert_eq!(join_path("/vault", ""), "/vault/");
}

#[test]
fn join_keeps_a_path_from_the_root() {
    assert_eq!(join_path("/vault", "/etc/a.md"), "/etc/a.md");
}

#[test]
fn file_name_is_the_last_real_segment() {
    assert_eq!(file_name_of("/vault/sub/a.md"), Some("a.md".to_string()));
    assert_eq!(file_name_of("a.md"), Some("a.md".to_string()));
    assert_eq!(file_name_of("/vault/sub/"), Some("sub".to_string()));
    assert_eq!(file_name_of("/vault/sub/."), Some("sub".to_string()));
    assert_eq!(file_name_of("/vault/sub/.//"), Some("sub".to_string()));
    assert_eq!(file_name_of("/vault/.."), None);
    assert_eq!(file_name_of("/"), None);
    assert_eq!(file_name_of("."), None);
    assert_eq!(file_name_of(""), None);
}

#[test]
fn file_stem_drops_the_last_extension() {
    assert_eq!(file_stem_of("/vault/B.md"), Some("B".to_string()));
    assert_eq!(file_stem_of("/vault/a.b.md"), Some("a.b".to_string()));
    assert_eq!(file_stem_of("/vault/README"), Some("README".to_string()));
    assert_eq!(file_stem_of("/vault/.hidden"), Some(".hidden".to_string()));
    assert_eq!(file_stem_of("/vault/.."), None);
}

#[test]
fn markdown_means_extension_md_exactly() {
    assert!(is_markdown_path("/vault/a.md"));
    assert!(is_markdown_path("a.b.md"));
    assert!(is_markdown_path("/vault/..md"));
    assert!(!is_markdown_path("/vault/a.MD"));
    assert!(!is_markdown_path("/vault/a.Md"));
    assert!(!is_markdown_path("/vault/a.mdx"));
    assert!(!is_markdown_path("/vault/a.md.txt"));
    assert!(!is_markdown_path("/vault/.md"));
    assert!(!is_markdown_path("/vault/md"));
    assert!(!is_markdown_path("/vault/a.md/.."));
}

#[test]
fn final_segment_follows_the_last_separator() {
    assert_eq!(final_segment_of("folder/B.md"), "B.md");
    assert_eq!(final_segment_of("B.md"), "B.md");
    assert_eq!(final_segment_of("a/b/"), "");
}

#[test]
fn relative_path_is_what_follows_the_vault() {
    assert_eq!(get_relative_path("/vault/A.md", "/vault"), Some("A.md".to_string()));
    assert_eq!(get_relative_path("/vault/sub/A.md", "/vault/"), Some("sub/A.md".to_string()));
    assert_eq!(get_relative_path("/vault//A.md", "/vault"), Some("A.md".to_string()));
    assert_eq!(get_relative_path("/vault", "/vault"), Some(String::new()));
    assert_eq!(get_relative_path("/a.md", "/"), Some("a.md".to_string()));
    assert_eq!(get_relative_path("a.md", ""), Some("a.md".to_string()));
}

#[test]
fn a_path_outside_the_vault_has_no_relative_path() {
    assert_eq!(get_relative_path("/vaults/A.md", "/vault"), None);
    assert_eq!(get_relative_path("/other/A.md", "/vault"), None);
    assert_eq!(get_relative_path("A.md", "/vault"), None);
}

#[test]
fn a_joined_path_is_found_again() {
    for (base, rel) in [("/vault", "A.md"), ("/vault/", "sub/A.md"), ("/", "x/y.md"), ("v", "")] {
        assert_eq!(get_relative_path(&join_path(base, rel), base), Some(rel.to_string()));
    }
}
