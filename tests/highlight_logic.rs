use std::str::FromStr;

use fikby::color::{Rgb, Rgba};
use fikby::config::{ThemeMode, HIGHLIGHT_CHAR_CUTOFF};
use fikby::themes::pick_theme;
use fikby::spans::{spans_of_lines, StyleSpan, StyledPiece, TokenizedLine};
use fikby::tokenize::{highlight_with_syntect, select_syntax, tokenize};
use syntect::highlighting::{
    Color, ScopeSelectors, StyleModifier, Theme, ThemeItem, ThemeSet, ThemeSettings,
};
use syntect::parsing::{SyntaxDefinition, SyntaxSet, SyntaxSetBuilder};

fn default_theme() -> Theme {
    let ts = ThemeSet::load_defaults();
    ts.themes
        .get("base16-ocean.dark")
        .or_else(|| ts.themes.get("InspiredGitHub"))
        .cloned()
        .unwrap_or_else(|| ts.themes.values().next().unwrap().clone())
}

fn assert_no_overlap(spans: &[StyleSpan], total_chars: usize) {
    let mut covered = vec![false; total_chars];
    for s in spans {
        for i in s.start..s.end {
            assert!(!covered[i], "highlight ranges overlap at char index {}", i);
            covered[i] = true;
        }
    }
}

/// A grammar that scopes the word `let` as a keyword, and a theme that paints
/// keywords red and leaves everything else transparent.
fn let_grammar_and_theme() -> (SyntaxSet, Theme) {
    let yaml = "%YAML 1.2\n---\nname: Let\nfile_extensions: [letlang]\nscope: source.letlang\ncontexts:\n  main:\n    - match: '\\blet\\b'\n      scope: keyword.control.letlang\n";
    let def = SyntaxDefinition::load_from_str(yaml, true, None).unwrap();
    let mut builder = SyntaxSetBuilder::new();
    builder.add(def);
    builder.add_plain_text_syntax();
    let ss = builder.build();
    let theme = Theme {
        name: None,
        author: None,
        settings: ThemeSettings {
            foreground: Some(Color { r: 0, g: 0, b: 0, a: 0 }),
            ..ThemeSettings::default()
        },
        scopes: vec![ThemeItem {
            scope: ScopeSelectors::from_str("keyword").unwrap(),
            style: StyleModifier {
                foreground: Some(Color { r: 0xFF, g: 0, b: 0, a: 0xFF }),
                background: None,
                font_style: None,
            },
        }],
    };
    (ss, theme)
}

fn piece(text: &str, r: u8, g: u8, b: u8, a: u8) -> StyledPiece {
    StyledPiece { fg: Rgba { r, g, b, a }, text: text.to_string() }
}

/// Verify syntect per-line highlight ranges map to correct character offsets (not bytes),
/// and that ranges are valid and non-overlapping for a sample Rust snippet containing
/// multi-byte characters.
#[test]
fn compute_syntect_ranges_are_character_correct() {
    let ss = SyntaxSet::load_defaults_newlines();
    let theme = default_theme();

    // Example text contains multi-byte characters (accent + emoji)
    let text = "fn main() {\n    println!(\"héllo 🌍\");\n}\n";
    let total_chars = text.chars().count();

    assert!(ss.find_syntax_by_extension("rs").is_some(), "rust syntax should be present");
    let ext = Some("rs");
    let lines = tokenize(text, ext, &theme, &ss);
    for line in &lines {
        assert!(!line.pieces.is_empty(), "highlight_line should succeed");
    }

    // cumulative count should match total characters
    let cumulative_chars: usize = lines.iter().map(|l| l.text.chars().count()).sum();
    assert_eq!(cumulative_chars, total_chars, "character counting mismatch");

    let ranges = spans_of_lines(&lines, total_chars);
    assert!(!ranges.is_empty());

    // Each range must be valid and inside [0, total_chars]
    for s in &ranges {
        assert!(s.start < s.end, "range start must be < end (start={}, end={})", s.start, s.end);
        assert!(s.end <= total_chars, "range end must be <= total_chars (end={}, total={})", s.end, total_chars);
    }

    // Ensure ranges do not overlap (sanity check)
    assert_no_overlap(&ranges, total_chars);
}

#[test]
fn let_keywords_give_two_spans() {
    let (ss, theme) = let_grammar_and_theme();
    let text = "let x = 1;\nlet y = 2;\n";
    let ext = Some("letlang");
    let spans = highlight_with_syntect(text, text.chars().count(), ext, &theme, &ss);
    let red = Rgb { r: 0xFF, g: 0, b: 0 };
    assert_eq!(
        spans,
        vec![
            StyleSpan { start: 0, end: 3, color: red },
            StyleSpan { start: 11, end: 14, color: red },
        ]
    );
    assert_eq!(red.key(), "#FF0000");
}

#[test]
fn unknown_extension_uses_plain_text() {
    let (ss, theme) = let_grammar_and_theme();
    let text = "let x = 1;\n";
    let ext = Some("nothing-registered");
    assert_eq!(select_syntax(&ss, ext).unwrap().name, "Plain Text");
    let spans = highlight_with_syntect(text, text.chars().count(), ext, &theme, &ss);
    assert!(spans.is_empty());
    assert_eq!(select_syntax(&ss, None).unwrap().name, "Plain Text");
}

#[test]
fn rehighlighting_gives_identical_spans() {
    let ss = SyntaxSet::load_defaults_newlines();
    let theme = default_theme();
    let text = "fn main() {\n    let s = \"héllo 🌍\";\n}\n";
    let ext = Some("rs");
    let n = text.chars().count();
    let first = highlight_with_syntect(text, n, ext, &theme, &ss);
    let second = highlight_with_syntect(text, n, ext, &theme, &ss);
    assert!(!first.is_empty());
    assert_eq!(first, second);
}

#[test]
fn block_comment_carries_across_lines() {
    let ss = SyntaxSet::load_defaults_newlines();
    let theme = default_theme();
    let text = "/* one\ntwo */ fn f() {}\n";
    let ext = Some("rs");
    let lines = tokenize(text, ext, &theme, &ss);
    assert_eq!(lines.len(), 2);
    // the comment's colour on line one is the colour of "two" on line two
    let first = &lines[0].pieces[0];
    let second = lines[1].pieces.iter().find(|p| p.text.contains("two")).unwrap();
    assert_eq!(first.fg, second.fg);
}

#[test]
fn empty_document_has_no_spans() {
    let ss = SyntaxSet::load_defaults_newlines();
    let theme = default_theme();
    let ext = Some("rs");
    assert!(tokenize("", ext, &theme, &ss).is_empty());
    assert!(highlight_with_syntect("", 0, ext, &theme, &ss).is_empty());
}

#[test]
fn oversized_destination_is_not_highlighted() {
    let (ss, theme) = let_grammar_and_theme();
    let ext = Some("letlang");
    let text = "let x = 1;\n";
    assert!(highlight_with_syntect(text, HIGHLIGHT_CHAR_CUTOFF + 1, ext, &theme, &ss).is_empty());
    assert_eq!(highlight_with_syntect(text, HIGHLIGHT_CHAR_CUTOFF, ext, &theme, &ss).len(), 1);
}

#[test]
fn spans_count_characters_not_bytes() {
    let lines = vec![
        TokenizedLine {
            text: "é🌍ab\n".to_string(),
            pieces: vec![piece("é🌍", 1, 2, 3, 255), piece("ab", 4, 5, 6, 255), piece("\n", 0, 0, 0, 0)],
        },
        TokenizedLine { text: "xyz".to_string(), pieces: vec![piece("x", 7, 8, 9, 1), piece("yz", 7, 8, 9, 0)] },
    ];
    let spans = spans_of_lines(&lines, 8);
    assert_eq!(
        spans,
        vec![
            StyleSpan { start: 0, end: 2, color: Rgb { r: 1, g: 2, b: 3 } },
            StyleSpan { start: 2, end: 4, color: Rgb { r: 4, g: 5, b: 6 } },
            StyleSpan { start: 5, end: 6, color: Rgb { r: 7, g: 8, b: 9 } },
        ]
    );
}

#[test]
fn transparent_pieces_are_never_styled() {
    let lines = vec![TokenizedLine {
        text: "abc def\n".to_string(),
        pieces: vec![piece("abc", 10, 20, 30, 0), piece(" def", 1, 1, 1, 0), piece("\n", 2, 2, 2, 0)],
    }];
    assert!(spans_of_lines(&lines, 8).is_empty());
}

#[test]
fn spans_clamp_to_document_and_skip_failed_lines() {
    let lines = vec![
        TokenizedLine { text: "ab\n".to_string(), pieces: vec![] },
        TokenizedLine { text: "cdef".to_string(), pieces: vec![piece("", 9, 9, 9, 255), piece("cdef", 9, 9, 9, 255)] },
    ];
    // the surface holds only five characters: the span is cut at five
    assert_eq!(spans_of_lines(&lines, 5), vec![StyleSpan { start: 3, end: 5, color: Rgb { r: 9, g: 9, b: 9 } }]);
    // a surface shorter than the line start drops the span
    assert!(spans_of_lines(&lines, 3).is_empty());
}

#[test]
fn grammar_comes_from_the_set_it_is_used_with() {
    // the set of the let grammar has no "rs" grammar: plain text, no spans
    let (ss, theme) = let_grammar_and_theme();
    let text = "fn main() { let x = 1; }\n";
    let spans = highlight_with_syntect(text, text.chars().count(), Some("rs"), &theme, &ss);
    assert!(spans.is_empty());
    // the extension is matched without regard to case, as syntect does
    let spans = highlight_with_syntect("let a;\n", 7, Some("LETLANG"), &theme, &ss);
    assert_eq!(spans.len(), 1);
}

#[test]
fn set_without_plain_text_highlights_nothing() {
    let yaml = "%YAML 1.2\n---\nname: Let\nfile_extensions: [letlang]\nscope: source.letlang\ncontexts:\n  main:\n    - match: '\\blet\\b'\n      scope: keyword.control.letlang\n";
    let mut builder = SyntaxSetBuilder::new();
    builder.add(SyntaxDefinition::load_from_str(yaml, true, None).unwrap());
    let ss = builder.build();
    let (_, theme) = let_grammar_and_theme();
    assert!(select_syntax(&ss, None).is_none());
    let lines = tokenize("let x;\nlet y;\n", None, &theme, &ss);
    assert_eq!(lines.len(), 2);
    assert!(lines.iter().all(|l| l.pieces.is_empty()));
    assert_eq!(highlight_with_syntect("let x;\n", 7, Some("letlang"), &theme, &ss).len(), 1);
}

#[test]
fn pieces_are_clamped_to_their_line() {
    let lines = vec![
        TokenizedLine { text: "ab\n".to_string(), pieces: vec![piece("abcdef", 1, 1, 1, 255)] },
        TokenizedLine { text: "cd".to_string(), pieces: vec![piece("c", 2, 2, 2, 255), piece("dxyz", 3, 3, 3, 255)] },
    ];
    assert_eq!(
        spans_of_lines(&lines, 5),
        vec![
            StyleSpan { start: 0, end: 3, color: Rgb { r: 1, g: 1, b: 1 } },
            StyleSpan { start: 3, end: 4, color: Rgb { r: 2, g: 2, b: 2 } },
            StyleSpan { start: 4, end: 5, color: Rgb { r: 3, g: 3, b: 3 } },
        ]
    );
}

#[test]
fn theme_falls_back_when_missing() {
    let ts = ThemeSet::load_defaults();
    let dark = pick_theme(&ts, ThemeMode::Dark).unwrap();
    assert_eq!(dark, &ts.themes["base16-ocean.dark"]);
    let mut partial = ThemeSet::load_defaults();
    partial.themes.remove("base16-ocean.light");
    assert_eq!(pick_theme(&partial, ThemeMode::Light).unwrap(), &ts.themes["InspiredGitHub"]);
    partial.themes.remove("InspiredGitHub");
    let first = partial.themes.values().next().unwrap().clone();
    assert_eq!(pick_theme(&partial, ThemeMode::Light).unwrap(), &first);
    assert!(pick_theme(&ThemeSet::default(), ThemeMode::Dark).is_none());
}

#[test]
fn tokens_lie_in_place_within_their_line() {
    let ss = SyntaxSet::load_defaults_newlines();
    let theme = default_theme();
    let text = "fn main() {\n    println!(\"héllo 🌍\");\n}\n";
    for line in tokenize(text, Some("rs"), &theme, &ss) {
        let joined: String = line.pieces.iter().map(|p| p.text.as_str()).collect();
        assert!(line.text.starts_with(&joined));
        assert_eq!(joined, line.text);
    }
}
