use fikby::color::{Rgb, Rgba};
use fikby::spans::StyleSpan;
use fikby::style_cache::{AppliedSpan, StyleCache};

const RED: Rgb = Rgb { r: 0xFF, g: 0, b: 0 };
const TEAL: Rgb = Rgb { r: 0x0A, g: 0xBC, b: 0x9F };

#[test]
fn color_keys_are_upper_case_hex() {
    assert_eq!(RED.key(), "#FF0000");
    assert_eq!(TEAL.key(), "#0ABC9F");
    assert_eq!(TEAL.tag_name(), "syn_0ABC9F");
    assert_eq!(Rgb { r: 0, g: 0, b: 0 }.key(), "#000000");
}

#[test]
fn alpha_decides_visibility() {
    let c = Rgba { r: 1, g: 2, b: 3, a: 0 };
    assert!(!c.visible());
    assert!(Rgba { a: 1, ..c }.visible());
    assert_eq!(c.opaque(), Rgb { r: 1, g: 2, b: 3 });
}

#[test]
fn one_handle_per_colour() {
    let mut cache = StyleCache::new();
    assert_eq!(cache.handle_for(RED), 0);
    assert_eq!(cache.handle_for(TEAL), 1);
    assert_eq!(cache.handle_for(RED), 0);
    assert_eq!(cache.len(), 2);
    assert_eq!(cache.color(1), TEAL);
    assert_eq!(cache.lookup(TEAL), Some(1));
    assert_eq!(cache.lookup(Rgb { r: 1, g: 1, b: 1 }), None);
}

#[test]
fn plan_binds_spans_and_clears_old_handles() {
    let mut cache = StyleCache::new();
    cache.handle_for(TEAL);
    let spans = vec![
        StyleSpan { start: 0, end: 3, color: RED },
        StyleSpan { start: 4, end: 5, color: TEAL },
        StyleSpan { start: 11, end: 14, color: RED },
    ];
    let plan = cache.plan_pass(&spans);
    assert_eq!(plan.clear, 1);
    assert_eq!(cache.len(), 2);
    assert_eq!(cache.color(1), RED);
    assert_eq!(
        plan.applied,
        vec![
            AppliedSpan { start: 0, end: 3, handle: 1 },
            AppliedSpan { start: 4, end: 5, handle: 0 },
            AppliedSpan { start: 11, end: 14, handle: 1 },
        ]
    );
}

#[test]
fn second_pass_creates_nothing_and_matches_the_first() {
    let mut cache = StyleCache::new();
    let spans = vec![
        StyleSpan { start: 0, end: 3, color: RED },
        StyleSpan { start: 3, end: 7, color: TEAL },
    ];
    let first = cache.plan_pass(&spans);
    let len_after_first = cache.len();
    let second = cache.plan_pass(&spans);
    assert_eq!(cache.len(), len_after_first);
    assert_eq!(first.applied, second.applied);
    assert_eq!(second.clear, 2);
}
