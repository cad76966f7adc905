use note_vault::frontmatter::{extract_frontmatter_and_content, render};

fn split(text: &str) -> (Option<String>, String) {
    extract_frontmatter_and_content(text)
}

#[test]
fn splits_block_and_body() {
    let (block, body) = split("---\ntitle: Alpha\n---\nHello [[B]]");
    assert_eq!(block, Some("title: Alpha".to_string()));
    assert_eq!(body, "Hello [[B]]");
}

#[test]
fn text_without_delimiter_is_all_body() {
    let (block, body) = split("Just a note\n---\nwith a rule");
    assert_eq!(block, None);
    assert_eq!(body, "Just a note\n---\nwith a rule");
}

#[test]
fn missing_second_delimiter_is_all_body() {
    let (block, body) = split("---\ntitle: Alpha\nno end");
    assert_eq!(block, None);
    assert_eq!(body, "---\ntitle: Alpha\nno end");
}

#[test]
fn nothing_after_second_delimiter_is_all_body() {
    let (block, body) = split("---\ntitle: Alpha\n---");
    assert_eq!(block, None);
    assert_eq!(body, "---\ntitle: Alpha\n---");
}

#[test]
fn single_character_after_second_delimiter_is_a_body() {
    let (block, body) = split("---\ntitle: Alpha\n---\n");
    assert_eq!(block, Some("title: Alpha".to_string()));
    assert_eq!(body, "");
}

#[test]
fn only_delimiters() {
    assert_eq!(split("---"), (None, "---".to_string()));
    assert_eq!(split("------"), (None, "------".to_string()));
    assert_eq!(split("------x"), (Some(String::new()), "x".to_string()));
    assert_eq!(split(""), (None, String::new()));
}

#[test]
fn second_delimiter_is_the_first_that_follows() {
    let (block, body) = split("---a----b");
    assert_eq!(block, Some("a".to_string()));
    assert_eq!(body, "-b");
}

#[test]
fn block_and_body_are_trimmed() {
    let (block, body) = split("---  \n\t key: 1 \r\n ---\n\n  \u{a0}Body  \n");
    assert_eq!(block, Some("key: 1".to_string()));
    assert_eq!(body, "Body  \n");
}

#[test]
fn characters_beyond_ascii_are_counted_as_characters() {
    let (block, body) = split("---\ntitel: Grüße\n---\nÄrger — nö");
    assert_eq!(block, Some("titel: Grüße".to_string()));
    assert_eq!(body, "Ärger — nö");
}

#[test]
fn renders_block_between_delimiters() {
    assert_eq!(render(Some("title: Alpha"), "Hello"), "---\ntitle: Alpha\n---\n\nHello");
}

#[test]
fn renders_body_alone_without_block() {
    assert_eq!(render(None, "Hello\n---\n"), "Hello\n---\n");
}

#[test]
fn rendered_text_splits_into_what_it_was_rendered_from() {
    let text = render(Some("title: Alpha\ntags: [a, b]"), "Body --- with a rule");
    let (block, body) = split(&text);
    assert_eq!(block, Some("title: Alpha\ntags: [a, b]".to_string()));
    assert_eq!(body, "Body --- with a rule");
    assert_eq!(render(block.as_deref(), &body), text);
}

#[test]
fn split_then_render_then_split_is_stable() {
    for text in [
        "---\ntitle: Alpha\n---\nHello [[B]]",
        "---a----b",
        "------x",
        "no block at all",
        "---\nopen only",
        "---  \n k: v \n---   \n\n body\n",
    ] {
        let (block, body) = split(text);
        let again = render(block.as_deref(), &body);
        assert_eq!(split(&again), (block, body));
    }
}

#[test]
fn trimming_agrees_with_the_standard_library() {
    let low = 0..0x4000u32;
    let high = (0x4000..=0x10FFFFu32).step_by(89);
    for code in low.chain(high) {
        let Some(c) = char::from_u32(code) else { continue };
        if c == '-' {
            continue;
        }
        let text = format!("---{c}k{c}---{c}b{c}");
        let (block, body) = split(&text);
        assert_eq!(block.as_deref(), Some(format!("{c}k{c}").trim()), "block for {code:#x}");
        assert_eq!(body, format!("{c}b{c}").trim_start(), "body for {code:#x}");
    }
}
