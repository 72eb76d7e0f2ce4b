use fikby::scheduler::HighlightScheduler;
use fikby::editing::{closing_bracket_dedent, count_leading_spaces, dedent_width, is_white_space_char, newline_with_indent};
use fikby::palette::{filter_commands, shows_command};
use fikby::policy::HighlightPolicy;
use fikby::search::selection_matches;

#[test]
fn dedent_removes_at_most_one_level() {
    assert_eq!(dedent_width("      x"), 4);
    assert_eq!(dedent_width("  x"), 2);
    assert_eq!(dedent_width("x    "), 0);
    assert_eq!(dedent_width(""), 0);
    assert_eq!(dedent_width("\tx"), 0);
    assert_eq!(count_leading_spaces("   é"), 3);
}

#[test]
fn enter_keeps_indentation() {
    assert_eq!(newline_with_indent("    let x = 1;"), "\n    ");
    assert_eq!(newline_with_indent("fn main() {"), "\n    ");
    assert_eq!(newline_with_indent("  if x:  \t"), "\n      ");
    assert_eq!(newline_with_indent("    v = ["), "\n        ");
    assert_eq!(newline_with_indent(""), "\n");
    assert_eq!(newline_with_indent("call(a,"), "\n");
}

#[test]
fn closing_bracket_dedents_blank_prefix() {
    assert_eq!(closing_bracket_dedent("        "), 4);
    assert_eq!(closing_bracket_dedent("    "), 4);
    assert_eq!(closing_bracket_dedent("   "), 0);
    assert_eq!(closing_bracket_dedent("    x"), 0);
    assert_eq!(closing_bracket_dedent("\u{3000}\u{3000}  "), 4);
    // the length that counts is the UTF-8 byte length of the text before the cursor
    assert_eq!(closing_bracket_dedent("\u{3000}\u{3000}"), 4);
    assert_eq!(closing_bracket_dedent("\u{A0}\u{A0}"), 4);
    assert_eq!(closing_bracket_dedent("\u{A0} "), 0);
    assert_eq!(closing_bracket_dedent("\u{3000}\t"), 4);
    assert_eq!(closing_bracket_dedent(""), 0);
    assert!(is_white_space_char('\u{2003}'));
    assert!(!is_white_space_char('x'));
}

#[test]
fn policy_highlights_unknown_types_unless_excluded() {
    let mut policy = HighlightPolicy::new();
    assert!(policy.enabled(Some("rs")));
    assert!(policy.enabled(Some("log")));
    assert!(policy.enabled(None));
    policy.excluded.push("log".to_string());
    policy.excluded.push("md".to_string());
    assert!(!policy.enabled(Some("log")));
    assert!(policy.enabled(Some("md")));
}

#[test]
fn selection_match_respects_case() {
    assert!(selection_matches("Hello", "Hello", true));
    assert!(!selection_matches("Hello", "hello", true));
    assert!(selection_matches("HeLLo", "hello", false));
    assert!(selection_matches("ÉTÉ", "été", false));
    assert!(!selection_matches("Hello", "help", false));
}

#[test]
fn palette_lists_fuzzy_matches_in_order() {
    let labels: Vec<String> = ["Open File", "Save File", "Toggle Wrap", "Find and Replace"]
        .iter()
        .map(|s| s.to_string())
        .collect();
    assert_eq!(filter_commands(&labels, ""), vec![0, 1, 2, 3]);
    assert_eq!(filter_commands(&labels, "file"), vec![0, 1, 3]);
    assert_eq!(filter_commands(&labels, "save"), vec![1]);
    assert_eq!(filter_commands(&labels, "tw"), vec![2]);
    assert_eq!(filter_commands(&labels, "zzz"), Vec::<usize>::new());
    assert!(shows_command("", None));
    assert!(!shows_command("q", None));
    assert!(shows_command("q", Some(3)));
}

#[test]
fn policy_passes_jobs_only_for_enabled_types() {
    let mut policy = HighlightPolicy::new();
    policy.excluded.push("log".to_string());
    let s = HighlightScheduler::new("x");
    assert!(policy.filter_job(Some("log"), s.current_job()).is_none());
    let job = policy.filter_job(Some("rs"), s.current_job()).unwrap();
    assert_eq!((job.generation, job.text.as_str()), (0, "x"));
    assert!(policy.filter_job(None, None).is_none());
}
