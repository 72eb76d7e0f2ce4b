use fikby::editing::indent_unit;
use fikby::explorer::{entry_icon, entry_less, explorer_listing, hidden, name_less, ExplorerEntry};
use fikby::status::{file_info, position_label, tab_title, untitled_info};

fn entry(name: &str, is_dir: bool) -> ExplorerEntry {
    ExplorerEntry { name: name.to_string(), is_dir }
}

#[test]
fn listing_puts_directories_first_and_drops_hidden() {
    let entries = vec![
        entry("zeta.rs", false),
        entry(".git", true),
        entry("src", true),
        entry("Cargo.toml", false),
        entry(".hidden", false),
        entry("assets", true),
        entry("alpha.md", false),
    ];
    let listing: Vec<(String, bool)> =
        explorer_listing(&entries).into_iter().map(|e| (e.name, e.is_dir)).collect();
    assert_eq!(
        listing,
        vec![
            ("assets".to_string(), true),
            ("src".to_string(), true),
            ("Cargo.toml".to_string(), false),
            ("alpha.md".to_string(), false),
            ("zeta.rs".to_string(), false),
        ]
    );
    assert!(explorer_listing(&vec![]).is_empty());
}

#[test]
fn names_compare_by_character() {
    assert!(name_less("a", "b"));
    assert!(name_less("ab", "abc"));
    assert!(!name_less("abc", "ab"));
    assert!(!name_less("same", "same"));
    assert!(name_less("Z", "a"));
    assert!(name_less("é", "ê"));
    assert!(entry_less(&entry("z", true), &entry("a", false)));
    assert!(hidden(".env"));
    assert!(!hidden("env."));
    assert_eq!(entry_icon(true), "folder-symbolic");
    assert_eq!(entry_icon(false), "text-x-generic-symbolic");
}

#[test]
fn status_texts() {
    assert_eq!(position_label(0, 0), "Ln 1, Col 1");
    assert_eq!(position_label(41, 9), "Ln 42, Col 10");
    assert_eq!(position_label(u32::MAX, 99), "Ln 4294967296, Col 100");
    assert_eq!(untitled_info(0), "Untitled — 0 bytes");
    assert_eq!(untitled_info(1234), "Untitled — 1234 bytes");
    assert_eq!(file_info("/tmp/a.rs", Some(10)), "/tmp/a.rs — 10 bytes");
    assert_eq!(file_info("/tmp/a.rs", None), "/tmp/a.rs");
}

#[test]
fn tab_titles() {
    assert_eq!(tab_title(Some("main.rs"), false), "main.rs");
    assert_eq!(tab_title(Some("main.rs"), true), "*main.rs");
    assert_eq!(tab_title(None, true), "*Untitled");
    assert_eq!(tab_title(None, false), "Untitled");
    assert_eq!(indent_unit(), "    ");
}
