use note_vault::backlinks::{
    find_backlinks, find_backlinks_fallback, plan_reading, reported_files, try_ripgrep_search,
    Reading, SearchRun,
};
use note_vault::commands::{
    check_backlinks_request, get_backlinks, get_note_content, get_note_title, get_notes,
    update_note_content, BacklinkInfo, NoteInfo,
};
use note_vault::disk::{Disk, Entry};
use note_vault::error::NoteError;
use note_vault::frontmatter::extract_frontmatter_and_content;
use note_vault::metadata::MetaValue;
use note_vault::matcher::Matcher;
use note_vault::notes::{
    get_content, get_frontmatter, get_title, read_file_content, resolve_note_path,
    strip_frontmatter, update_note, NoteWrite,
};
use note_vault::order::arrange;
use note_vault::scan::get_all_notes;

fn file(name: &str, text: &str) -> Entry {
    Entry::File { name: name.to_string(), canonical: None, text: Some(text.to_string()) }
}

fn dir(name: &str, children: Vec<Entry>) -> Entry {
    Entry::Dir { name: name.to_string(), children: Some(children) }
}

fn vault(entries: Vec<Entry>) -> Disk {
    Disk { roots: vec![dir("/vault", entries)] }
}

fn pair(a: &str, b: &str) -> (String, String) {
    (a.to_string(), b.to_string())
}

fn no_tool() -> Vec<SearchRun> {
    vec![SearchRun::Unavailable]
}

fn ran(code: i32, output: &str) -> SearchRun {
    SearchRun::Finished { code: Some(code), output: output.to_string() }
}

fn alpha_beta() -> Disk {
    vault(vec![
        file("A.md", "---\ntitle: Alpha\n---\nHello [[B]]"),
        file("B.md", "---\ntitle: Beta\n---\nWorld"),
    ])
}

fn backlink(title: &str, relative_path: &str) -> BacklinkInfo {
    BacklinkInfo { title: title.to_string(), relative_path: relative_path.to_string() }
}

#[test]
fn scenario_backlinks_of_beta() {
    let disk = alpha_beta();
    assert_eq!(get_backlinks(&disk, "B.md", "/vault", &no_tool()), Ok(vec![backlink("Alpha", "A.md")]));
    assert_eq!(get_note_content(&disk, "A.md", "/vault"), "Hello [[B]]");
    assert_eq!(get_note_title(&disk, "B.md", "/vault"), "Beta");
}

#[test]
fn scenario_backlinks_of_beta_with_the_search_tool() {
    let disk = alpha_beta();
    let runs = vec![ran(1, ""), ran(0, "/vault/A.md\n")];
    assert_eq!(get_backlinks(&disk, "B.md", "/vault", &runs), Ok(vec![backlink("Alpha", "A.md")]));
}

#[test]
fn both_ways_find_the_same_plain_link() {
    let disk = vault(vec![file("A.md", "See [[B]] for details"), file("B.md", "target")]);
    let by_scan = find_backlinks_fallback(&disk, "B.md", "/vault");
    let by_tool = try_ripgrep_search(&disk, "B.md", "/vault", &vec![ran(1, ""), ran(0, "/vault/A.md\n")]);
    assert_eq!(by_scan, vec![pair("A.md", "A")]);
    assert_eq!(by_tool, Some(by_scan));
}

#[test]
fn aliased_link_is_a_link() {
    let disk = vault(vec![file("A.md", "x [[B|see also]] y"), file("B.md", ""), file("C.md", "[[Bee|B]]")]);
    assert_eq!(find_backlinks(&disk, "B.md", "/vault", &no_tool()), vec![pair("A.md", "A")]);
}

#[test]
fn link_in_any_spelling_is_found() {
    let disk = vault(vec![
        file("full.md", "[[folder/B.md]]"),
        file("stem.md", "[[folder/B]]"),
        file("name.md", "[[B.md]]"),
        file("bare.md", "[[B]]"),
        file("alias.md", "[[folder/B|the note]]"),
        file("other.md", "[[folder/C]] [[AB]] [[B] ] [B]"),
        dir("folder", vec![file("B.md", "target")]),
    ]);
    let found = find_backlinks(&disk, "folder/B.md", "/vault", &no_tool());
    assert_eq!(
        found,
        vec![
            pair("alias.md", "alias"),
            pair("bare.md", "bare"),
            pair("full.md", "full"),
            pair("name.md", "name"),
            pair("stem.md", "stem"),
        ]
    );
}

#[test]
fn target_without_extension_is_searched_as_given() {
    let disk = vault(vec![
        file("stem.md", "[[folder/B]]"),
        file("bare.md", "[[B]]"),
        file("full.md", "[[folder/B.md]]"),
        dir("folder", vec![file("B.md", "target")]),
    ]);
    let found = find_backlinks(&disk, "folder/B", "/vault", &no_tool());
    assert_eq!(found, vec![pair("bare.md", "bare"), pair("stem.md", "stem")]);
}

#[test]
fn target_is_never_its_own_backlink() {
    let disk = vault(vec![file("A.md", "[[B]]"), file("B.md", "I am [[B]] and [[B.md]]")]);
    assert_eq!(find_backlinks(&disk, "B.md", "/vault", &no_tool()), vec![pair("A.md", "A")]);
    let runs = vec![ran(0, "/vault/B.md\n"), ran(0, "/vault/B.md\n/vault/A.md\n")];
    assert_eq!(find_backlinks(&disk, "B.md", "/vault", &runs), vec![pair("A.md", "A")]);
}

#[test]
fn missing_vault_is_turned_down() {
    let disk = alpha_beta();
    assert_eq!(
        get_backlinks(&disk, "B.md", "/nowhere", &no_tool()),
        Err("Vault directory does not exist: /nowhere".to_string())
    );
    assert_eq!(
        check_backlinks_request("B.md", "/nowhere", false),
        Err("Vault directory does not exist: /nowhere".to_string())
    );
}

#[test]
fn empty_arguments_are_turned_down() {
    let disk = alpha_beta();
    assert_eq!(get_backlinks(&disk, "", "/vault", &no_tool()), Err("Relative path is empty".to_string()));
    assert_eq!(get_backlinks(&disk, "B.md", "", &no_tool()), Err("Vault directory is empty".to_string()));
    assert_eq!(check_backlinks_request("", "", true), Err("Relative path is empty".to_string()));
    assert_eq!(check_backlinks_request("B.md", "/vault", true), Ok(()));
}

#[test]
fn empty_result_of_the_tool_is_no_failure() {
    let disk = vault(vec![file("A.md", "[[B]]"), file("B.md", "")]);
    let runs = vec![ran(1, ""), ran(1, "")];
    assert_eq!(try_ripgrep_search(&disk, "B.md", "/vault", &runs), Some(vec![]));
    assert_eq!(find_backlinks(&disk, "B.md", "/vault", &runs), Vec::<(String, String)>::new());
}

#[test]
fn tool_that_cannot_start_sends_to_the_scan() {
    let disk = vault(vec![file("A.md", "[[B]]"), file("B.md", "")]);
    let runs = vec![ran(0, "/vault/A.md\n"), SearchRun::Unavailable];
    assert_eq!(try_ripgrep_search(&disk, "B.md", "/vault", &runs), None);
    assert_eq!(try_ripgrep_search(&disk, "B.md", "/vault", &vec![ran(0, "")]), None);
    assert_eq!(try_ripgrep_search(&disk, "B.md", "/vault", &vec![]), None);
    assert_eq!(find_backlinks(&disk, "B.md", "/vault", &runs), vec![pair("A.md", "A")]);
}

#[test]
fn run_with_an_unexpected_code_counts_for_nothing() {
    let disk = vault(vec![file("A.md", "[[B]]"), file("C.md", "[[B.md]]"), file("B.md", "")]);
    let runs = vec![
        SearchRun::Finished { code: Some(2), output: "/vault/C.md\n".to_string() },
        ran(0, "/vault/A.md\n"),
    ];
    assert_eq!(try_ripgrep_search(&disk, "B.md", "/vault", &runs), Some(vec![pair("A.md", "A")]));
    let killed = vec![SearchRun::Finished { code: None, output: "/vault/C.md\n".to_string() }, ran(1, "")];
    assert_eq!(try_ripgrep_search(&disk, "B.md", "/vault", &killed), Some(vec![]));
}

#[test]
fn reported_files_are_checked_against_the_disk() {
    let disk = vault(vec![file("A.md", "[[B]]"), file("B.md", "")]);
    let runs = vec![ran(0, "  /vault/A.md \r\n/vault/gone.md\n/elsewhere/X.md\n\n"), ran(1, "")];
    assert_eq!(try_ripgrep_search(&disk, "B.md", "/vault", &runs), Some(vec![pair("A.md", "A")]));
}

#[test]
fn results_are_sorted_and_hold_each_note_once() {
    let disk = vault(vec![
        file("z.md", "[[B]] [[B.md]]"),
        file("a.md", "[[B]]"),
        dir("m", vec![file("n.md", "[[B|x]]")]),
        file("B.md", ""),
    ]);
    let runs = vec![ran(0, "/vault/z.md\n"), ran(0, "/vault/z.md\n/vault/m/n.md\n/vault/a.md\n")];
    let expected = vec![pair("a.md", "a"), pair("m/n.md", "n"), pair("z.md", "z")];
    assert_eq!(find_backlinks(&disk, "B.md", "/vault", &runs), expected);
    assert_eq!(find_backlinks(&disk, "B.md", "/vault", &no_tool()), expected);
}

#[test]
fn arrange_sorts_by_path_and_keeps_the_first_of_each() {
    let found = vec![pair("b", "1"), pair("a", "2"), pair("b", "3"), pair("ab", "4"), pair("B", "5"), pair("a", "6")];
    assert_eq!(arrange(&found), vec![pair("B", "5"), pair("a", "2"), pair("ab", "4"), pair("b", "1")]);
    assert_eq!(arrange(&vec![]), Vec::<(String, String)>::new());
}

#[test]
fn arrange_orders_by_code_point() {
    let found = vec![pair("é", ""), pair("z", ""), pair("Z", ""), pair("", ""), pair("zz", "")];
    let mut expected = found.clone();
    expected.sort();
    assert_eq!(arrange(&found), expected);
}

#[test]
fn reported_files_are_trimmed_lines() {
    assert_eq!(reported_files("/v/a.md\n/v/b.md\n"), vec!["/v/a.md", "/v/b.md"]);
    assert_eq!(reported_files("/v/a.md\r\n  /v/b.md  "), vec!["/v/a.md", "/v/b.md"]);
    assert_eq!(reported_files("\n\n"), vec!["", ""]);
    assert_eq!(reported_files(""), Vec::<String>::new());
    assert_eq!(reported_files("one"), vec!["one"]);
}

#[test]
fn scan_finds_markdown_files_at_every_depth() {
    let disk = vault(vec![
        file("a.md", ""),
        file("b.txt", ""),
        file("c.MD", ""),
        file(".md", ""),
        file("md", ""),
        Entry::Other { name: "pipe.md".to_string() },
        dir("one", vec![
            file("d.md", ""),
            dir("two", vec![dir("three", vec![file("e.md", ""), file("e.markdown", "")])]),
            dir("empty", vec![]),
        ]),
        dir("notes.md", vec![file("f.md", "")]),
        file("z.md", ""),
    ]);
    assert_eq!(
        get_all_notes(&disk, "/vault"),
        vec![
            pair("/vault/a.md", "a.md"),
            pair("/vault/one/d.md", "one/d.md"),
            pair("/vault/one/two/three/e.md", "one/two/three/e.md"),
            pair("/vault/notes.md/f.md", "notes.md/f.md"),
            pair("/vault/z.md", "z.md"),
        ]
    );
}

#[test]
fn scan_uses_the_canonical_path_where_it_is_known() {
    let disk = vault(vec![Entry::File {
        name: "a.md".to_string(),
        canonical: Some("/data/real/a.md".to_string()),
        text: None,
    }]);
    assert_eq!(get_all_notes(&disk, "/vault"), vec![pair("/data/real/a.md", "a.md")]);
}

#[test]
fn scan_of_a_vault_named_with_a_separator_at_its_end() {
    let disk = Disk { roots: vec![dir("/vault/", vec![dir("sub", vec![file("a.md", "")])])] };
    assert_eq!(get_all_notes(&disk, "/vault/"), vec![pair("/vault/sub/a.md", "sub/a.md")]);
    assert_eq!(get_all_notes(&disk, "/vault"), Vec::<(String, String)>::new());
}

#[test]
fn scan_of_what_is_no_directory_is_empty() {
    let disk = vault(vec![file("a.md", "")]);
    assert_eq!(get_all_notes(&disk, "/nowhere"), Vec::<(String, String)>::new());
    assert_eq!(get_all_notes(&disk, "/vault/a.md"), Vec::<(String, String)>::new());
    assert_eq!(get_all_notes(&Disk { roots: vec![] }, "/vault"), Vec::<(String, String)>::new());
}

#[test]
fn scan_with_a_directory_that_cannot_be_listed_is_empty() {
    let disk = vault(vec![
        file("a.md", ""),
        dir("ok", vec![Entry::Dir { name: "locked".to_string(), children: None }]),
    ]);
    assert_eq!(get_all_notes(&disk, "/vault"), Vec::<(String, String)>::new());
    let locked = Disk { roots: vec![Entry::Dir { name: "/vault".to_string(), children: None }] };
    assert_eq!(get_all_notes(&locked, "/vault"), Vec::<(String, String)>::new());
}

#[test]
fn scan_can_start_below_the_root_of_the_picture() {
    let disk = vault(vec![dir("sub", vec![file("a.md", "")]), file("b.md", "")]);
    assert_eq!(get_all_notes(&disk, "/vault/sub"), vec![pair("/vault/sub/a.md", "a.md")]);
}

#[test]
fn notes_are_listed_with_their_titles() {
    let disk = vault(vec![
        file("A.md", "---\ntitle: Alpha\n---\nHello"),
        dir("sub", vec![file("plain.md", "no block")]),
    ]);
    assert_eq!(
        get_notes(&disk, "/vault"),
        vec![
            NoteInfo {
                title: "Alpha".to_string(),
                absolute_path: "/vault/A.md".to_string(),
                relative_path: "A.md".to_string(),
            },
            NoteInfo {
                title: "plain".to_string(),
                absolute_path: "/vault/sub/plain.md".to_string(),
                relative_path: "sub/plain.md".to_string(),
            },
        ]
    );
}

#[test]
fn absolute_path_comes_first() {
    let disk = vault(vec![file("A.md", ""), file("B.md", "")]);
    assert_eq!(
        resolve_note_path(&disk, Some("/vault/A.md"), Some("B.md"), Some("/vault")),
        Ok("/vault/A.md".to_string())
    );
    assert_eq!(resolve_note_path(&disk, Some("/vault/A.md"), None, None), Ok("/vault/A.md".to_string()));
    assert_eq!(
        resolve_note_path(&disk, Some("/vault/A.md"), Some("B.md"), None),
        Ok("/vault/A.md".to_string())
    );
}

#[test]
fn relative_path_is_tried_when_the_absolute_one_leads_nowhere() {
    let disk = vault(vec![file("A.md", ""), dir("sub", vec![file("B.md", "")])]);
    assert_eq!(
        resolve_note_path(&disk, Some("/vault/gone.md"), Some("sub/B.md"), Some("/vault")),
        Ok("/vault/sub/B.md".to_string())
    );
    assert_eq!(resolve_note_path(&disk, None, Some("A.md"), Some("/vault/")), Ok("/vault/A.md".to_string()));
    assert_eq!(resolve_note_path(&disk, None, Some("sub"), Some("/vault")), Ok("/vault/sub".to_string()));
}

#[test]
fn relative_path_without_vault_is_invalid() {
    let disk = vault(vec![file("A.md", "")]);
    assert_eq!(resolve_note_path(&disk, None, Some("A.md"), None), Err(NoteError::InvalidInput));
    assert_eq!(
        resolve_note_path(&disk, Some("/vault/gone.md"), Some("A.md"), None),
        Err(NoteError::InvalidInput)
    );
}

#[test]
fn what_does_not_resolve_is_not_found() {
    let disk = vault(vec![file("A.md", "")]);
    assert_eq!(resolve_note_path(&disk, None, None, None), Err(NoteError::NotFound));
    assert_eq!(resolve_note_path(&disk, None, None, Some("/vault")), Err(NoteError::NotFound));
    assert_eq!(resolve_note_path(&disk, Some("/vault/gone.md"), None, Some("/vault")), Err(NoteError::NotFound));
    assert_eq!(resolve_note_path(&disk, None, Some("gone.md"), Some("/vault")), Err(NoteError::NotFound));
}

#[test]
fn canonical_path_leads_to_the_file() {
    let disk = vault(vec![Entry::File {
        name: "a.md".to_string(),
        canonical: Some("/data/real/a.md".to_string()),
        text: Some("---\ntitle: Real\n---\nbody".to_string()),
    }]);
    assert_eq!(resolve_note_path(&disk, Some("/data/real/a.md"), None, None), Ok("/data/real/a.md".to_string()));
    assert_eq!(get_title(&disk, Some("/data/real/a.md"), Some("a.md"), Some("/vault")), "Real");
    assert_eq!(get_content(&disk, Some("/data/real/a.md"), None, None), "body");
}

#[test]
fn reading_tells_missing_from_unreadable() {
    let disk = vault(vec![
        file("A.md", "text"),
        Entry::File { name: "locked.md".to_string(), canonical: None, text: None },
        dir("sub", vec![]),
    ]);
    assert_eq!(read_file_content(&disk, "/vault/A.md"), Ok("text".to_string()));
    assert_eq!(read_file_content(&disk, "/vault/locked.md"), Err(NoteError::Io));
    assert_eq!(read_file_content(&disk, "/vault/sub"), Err(NoteError::Io));
    assert_eq!(read_file_content(&disk, "/vault/gone.md"), Err(NoteError::NotFound));
}

#[test]
fn error_messages() {
    assert_eq!(NoteError::InvalidInput.message(), "Vault directory must be provided with relative path");
    assert_eq!(NoteError::NotFound.message(), "Note file not found or invalid path provided");
    assert_eq!(NoteError::Io.message(), "Note file could not be read");
}

#[test]
fn title_comes_from_the_frontmatter() {
    let disk = vault(vec![file("n.md", "---\ntitle: \"X\"\nother: 1\n---\nbody")]);
    assert_eq!(get_title(&disk, None, Some("n.md"), Some("/vault")), "X");
}

#[test]
fn title_falls_back_to_the_file_stem() {
    let disk = vault(vec![
        file("no-block.md", "just text"),
        file("no-title.md", "---\ntags: [a]\n---\nbody"),
        file("number.md", "---\ntitle: 42\n---\nbody"),
        file("broken.md", "---\ntitle: [oops\n---\nbody"),
        file("two.part.md", "text"),
        Entry::File { name: "locked.md".to_string(), canonical: None, text: None },
    ]);
    assert_eq!(get_title(&disk, None, Some("no-block.md"), Some("/vault")), "no-block");
    assert_eq!(get_title(&disk, None, Some("no-title.md"), Some("/vault")), "no-title");
    assert_eq!(get_title(&disk, None, Some("number.md"), Some("/vault")), "number");
    assert_eq!(get_title(&disk, None, Some("broken.md"), Some("/vault")), "broken");
    assert_eq!(get_title(&disk, None, Some("two.part.md"), Some("/vault")), "two.part");
    assert_eq!(get_title(&disk, None, Some("locked.md"), Some("/vault")), "locked");
}

#[test]
fn title_of_a_note_that_is_not_there_is_empty() {
    let disk = vault(vec![]);
    assert_eq!(get_title(&disk, None, Some("gone.md"), Some("/vault")), "");
    assert_eq!(get_title(&disk, None, Some("gone.md"), None), "");
    assert_eq!(get_title(&disk, None, None, None), "");
}

#[test]
fn frontmatter_is_read_as_a_value() {
    let disk = vault(vec![
        file("a.md", "---\ntitle: Alpha\n---\nbody"),
        file("b.md", "no block"),
        file("c.md", "---\n: : [\n---\nbody"),
    ]);
    assert_eq!(
        get_frontmatter(&disk, None, Some("a.md"), Some("/vault")),
        Some(MetaValue::Mapping(vec![("title".to_string(), MetaValue::Text("Alpha".to_string()))]))
    );
    assert_eq!(get_frontmatter(&disk, None, Some("b.md"), Some("/vault")), None);
    assert_eq!(get_frontmatter(&disk, None, Some("c.md"), Some("/vault")), Some(MetaValue::Mapping(vec![])));
    assert_eq!(get_frontmatter(&disk, None, Some("gone.md"), Some("/vault")), None);
}

#[test]
fn content_is_the_text_without_the_block() {
    let disk = vault(vec![
        file("a.md", "---\ntitle: Alpha\n---\n\n  Hello\n"),
        file("b.md", "no block\n"),
        Entry::File { name: "locked.md".to_string(), canonical: None, text: None },
    ]);
    assert_eq!(strip_frontmatter(&disk, None, Some("a.md"), Some("/vault")), "Hello\n");
    assert_eq!(get_content(&disk, None, Some("b.md"), Some("/vault")), "no block\n");
    assert_eq!(get_content(&disk, None, Some("locked.md"), Some("/vault")), "");
    assert_eq!(get_content(&disk, None, Some("gone.md"), Some("/vault")), "");
    assert_eq!(get_content(&disk, None, Some("a.md"), None), "");
}

#[test]
fn update_keeps_the_block() {
    let disk = vault(vec![file("a.md", "---\ntitle: Alpha\n---\nold body")]);
    assert_eq!(
        update_note(&disk, None, Some("a.md"), Some("/vault"), "new body"),
        Ok(NoteWrite {
            path: "/vault/a.md".to_string(),
            text: "---\ntitle: Alpha\n---\n\nnew body".to_string(),
        })
    );
}

#[test]
fn update_does_not_read_a_block_into_the_new_body() {
    let disk = vault(vec![file("a.md", "---\ntitle: Alpha\n---\nold"), file("b.md", "plain")]);
    let body = "---\ntitle: Intruder\n---\ntext";
    let write = update_note(&disk, Some("/vault/a.md"), None, None, body).unwrap();
    assert_eq!(write.text, "---\ntitle: Alpha\n---\n\n---\ntitle: Intruder\n---\ntext");
    let (block, rest) = extract_frontmatter_and_content(&write.text);
    assert_eq!(block, Some("title: Alpha".to_string()));
    assert_eq!(rest, body);
    let write = update_note(&disk, None, Some("b.md"), Some("/vault"), body).unwrap();
    assert_eq!(write.text, body);
}

#[test]
fn update_with_the_own_content_changes_nothing() {
    for text in ["---\ntitle: Alpha\n---\n\nHello [[B]]", "---\n k: v \n---   body ", "plain text", "---\nopen"] {
        let disk = vault(vec![file("a.md", text)]);
        let body = get_content(&disk, None, Some("a.md"), Some("/vault"));
        let write = update_note(&disk, None, Some("a.md"), Some("/vault"), &body).unwrap();
        assert_eq!(extract_frontmatter_and_content(&write.text), extract_frontmatter_and_content(text));
        let after = vault(vec![file("a.md", &write.text)]);
        assert_eq!(get_content(&after, None, Some("a.md"), Some("/vault")), body);
        let again = update_note(&after, None, Some("a.md"), Some("/vault"), &body).unwrap();
        assert_eq!(again.text, write.text);
    }
}

#[test]
fn update_fails_as_resolving_and_reading_fail() {
    let disk = vault(vec![Entry::File { name: "locked.md".to_string(), canonical: None, text: None }]);
    assert_eq!(update_note(&disk, None, Some("gone.md"), Some("/vault"), "x"), Err(NoteError::NotFound));
    assert_eq!(update_note(&disk, None, Some("gone.md"), None, "x"), Err(NoteError::InvalidInput));
    assert_eq!(update_note(&disk, None, Some("locked.md"), Some("/vault"), "x"), Err(NoteError::Io));
    assert_eq!(
        update_note_content(&disk, None, Some("gone.md"), "/vault", "x"),
        Err("Failed to update note: Note file not found or invalid path provided".to_string())
    );
    assert_eq!(
        update_note_content(&disk, None, Some("locked.md"), "/vault", "x"),
        Err("Failed to update note: Note file could not be read".to_string())
    );
}

#[test]
fn update_through_the_command_gives_the_write() {
    let disk = alpha_beta();
    assert_eq!(
        update_note_content(&disk, None, Some("B.md"), "/vault", "Earth"),
        Ok(NoteWrite { path: "/vault/B.md".to_string(), text: "---\ntitle: Beta\n---\n\nEarth".to_string() })
    );
}

#[test]
fn disk_answers_for_what_it_holds() {
    let disk = alpha_beta();
    assert!(disk.has("/vault"));
    assert!(disk.has("/vault/A.md"));
    assert!(!disk.has("/vault/C.md"));
    assert!(!disk.has("A.md"));
    assert!(!disk.has(""));
    assert_eq!(disk.entry_at("/vault/B.md").map(|e| e.name().clone()), Some("B.md".to_string()));
}

#[test]
fn reading_plan_names_the_reported_files() {
    let runs = vec![ran(0, "/vault/z.md\n"), ran(2, "/vault/skipped.md\n"), ran(0, " /vault/a.md \n/vault/z.md\n"), ran(1, "")];
    assert_eq!(
        plan_reading("folder/B.md", &runs),
        Reading::Files(vec!["/vault/z.md".to_string(), "/vault/a.md".to_string(), "/vault/z.md".to_string()])
    );
    assert_eq!(plan_reading("B.md", &vec![ran(1, ""), ran(1, "")]), Reading::Files(vec![]));
}

#[test]
fn reading_plan_asks_for_the_vault_when_the_tool_cannot_start() {
    assert_eq!(plan_reading("B.md", &vec![]), Reading::Vault);
    assert_eq!(plan_reading("B.md", &vec![ran(0, "/vault/a.md\n")]), Reading::Vault);
    assert_eq!(plan_reading("B.md", &vec![ran(0, ""), SearchRun::Unavailable]), Reading::Vault);
    assert_eq!(plan_reading("B.md", &vec![SearchRun::Unavailable, ran(0, "")]), Reading::Vault);
    assert_eq!(plan_reading("", &vec![]), Reading::Files(vec![]));
}

#[test]
fn matcher_tries_every_pattern() {
    let patterns = vec![r"\[\[B\]\]".to_string(), r"\[\[B\|".to_string()];
    let matcher = Matcher::new(&patterns);
    assert!(matcher.matches("see [[B]]"));
    assert!(matcher.matches("see [[B|alias]]"));
    assert!(!matcher.matches("see [[ B]] [[b]] [B] \\[\\[B\\]\\]"));
    assert!(!matcher.matches(""));
}

#[test]
fn matcher_leaves_out_what_does_not_compile() {
    let patterns = vec!["(unclosed".to_string(), "b+".to_string(), "[".to_string()];
    let matcher = Matcher::new(&patterns);
    assert!(matcher.matches("abba"));
    assert!(!matcher.matches("(unclosed ["));
    assert!(!Matcher::new(&vec![]).matches("anything"));
}

#[test]
fn picture_of_the_reported_files_is_enough_for_the_fast_way() {
    let runs = vec![ran(1, ""), ran(0, "/vault/A.md\n/vault/sub/C.md\n/vault/B.md\n")];
    let whole = vault(vec![
        file("A.md", "---\ntitle: Alpha\n---\nHello [[B]]"),
        file("B.md", "---\ntitle: Beta\n---\n[[B]]"),
        dir("sub", vec![file("C.md", "[[B|beta]]")]),
        file("D.md", "[[B]] that the tool did not report"),
    ]);
    let part = Disk {
        roots: vec![
            Entry::Dir { name: "/vault".to_string(), children: None },
            Entry::File {
                name: "/vault/A.md".to_string(),
                canonical: None,
                text: Some("---\ntitle: Alpha\n---\nHello [[B]]".to_string()),
            },
            Entry::File {
                name: "/vault/sub/C.md".to_string(),
                canonical: None,
                text: Some("[[B|beta]]".to_string()),
            },
            Entry::File { name: "/vault/B.md".to_string(), canonical: None, text: None },
        ],
    };
    let expected = Ok(vec![backlink("Alpha", "A.md"), backlink("C", "sub/C.md")]);
    assert_eq!(get_backlinks(&whole, "B.md", "/vault", &runs), expected);
    assert_eq!(get_backlinks(&part, "B.md", "/vault", &runs), expected);
    assert_eq!(
        plan_reading("B.md", &runs),
        Reading::Files(vec!["/vault/A.md".to_string(), "/vault/sub/C.md".to_string(), "/vault/B.md".to_string()])
    );
}

#[test]
fn picture_of_one_place_is_enough_for_one_note() {
    let part = Disk {
        roots: vec![
            Entry::Dir { name: "/vault".to_string(), children: None },
            Entry::File {
                name: "/vault/sub/n.md".to_string(),
                canonical: None,
                text: Some("---\ntitle: N\n---\nbody".to_string()),
            },
        ],
    };
    assert_eq!(get_note_title(&part, "sub/n.md", "/vault"), "N");
    assert_eq!(get_note_content(&part, "sub/n.md", "/vault"), "body");
    assert_eq!(get_note_title(&part, "sub/gone.md", "/vault"), "");
    assert_eq!(
        update_note_content(&part, None, Some("sub/n.md"), "/vault", "new"),
        Ok(NoteWrite { path: "/vault/sub/n.md".to_string(), text: "---\ntitle: N\n---\n\nnew".to_string() })
    );
}

#[test]
fn scanned_notes_are_found_again() {
    let disk = vault(vec![
        file("a.md", "---\ntitle: A\n---\n"),
        dir("one", vec![
            Entry::File {
                name: "b.md".to_string(),
                canonical: Some("/real/b.md".to_string()),
                text: Some("b".to_string()),
            },
            dir("two", vec![file("c.md", "c")]),
        ]),
    ]);
    let notes = get_all_notes(&disk, "/vault");
    assert_eq!(notes.len(), 3);
    for (absolute, relative) in &notes {
        assert!(disk.has(absolute));
        let by_relative = resolve_note_path(&disk, None, Some(relative), Some("/vault")).unwrap();
        assert_eq!(by_relative, format!("/vault/{relative}"));
        assert_eq!(resolve_note_path(&disk, Some(absolute), None, None), Ok(absolute.clone()));
        assert_eq!(
            read_file_content(&disk, absolute),
            read_file_content(&disk, &by_relative)
        );
    }
}
