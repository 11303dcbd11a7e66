use release_notes::error::ReportError;
use release_notes::labels::{classify, compile_labels, decide, no_labels, Category, Classification};

fn strings(v: &[&str]) -> Vec<String> {
    v.iter().map(|s| s.to_string()).collect()
}

fn category(title: &str, patterns: &[&str]) -> Category {
    Category::new(title.to_string(), &strings(patterns)).unwrap()
}

#[test]
fn skip_wins_over_category() {
    let skip = compile_labels("skip-labels", &strings(&["^skip"])).unwrap();
    let cats = vec![category("Features", &["^feat"])];
    let c = classify(&strings(&["feature", "skip-changelog"]), &skip, &cats);
    assert_eq!(c, Classification::Skip);
}

#[test]
fn first_matching_category_wins() {
    let cats = vec![
        category("Docs", &["^docs"]),
        category("Features", &["^feat"]),
        category("Everything", &["feat", "fix"]),
    ];
    let c = classify(&strings(&["feature"]), &no_labels(), &cats);
    assert_eq!(c, Classification::Category(1));
    let c = classify(&strings(&["bugfix"]), &no_labels(), &cats);
    assert_eq!(c, Classification::Category(2));
}

#[test]
fn unmatched_is_uncategorized() {
    let cats = vec![category("Features", &["^feat"]), category("Nothing", &[])];
    assert_eq!(classify(&strings(&["chore"]), &no_labels(), &cats), Classification::Uncategorized);
    assert_eq!(classify(&Vec::new(), &no_labels(), &cats), Classification::Uncategorized);
}

#[test]
fn decide_orders_skip_then_categories() {
    assert_eq!(decide(true, &vec![true]), Classification::Skip);
    assert_eq!(decide(false, &vec![false, true, true]), Classification::Category(1));
    assert_eq!(decide(false, &vec![false, false]), Classification::Uncategorized);
    assert_eq!(decide(false, &Vec::new()), Classification::Uncategorized);
}

#[test]
fn invalid_pattern_is_rejected() {
    match compile_labels("skip-labels", &strings(&["ok", "(unclosed"])) {
        Err(ReportError::InvalidPattern { field }) => assert_eq!(field, "skip-labels"),
        _ => panic!("expected an invalid pattern"),
    }
    assert!(matches!(Category::new("X".to_string(), &strings(&["["])), Err(ReportError::InvalidPattern { .. })));
}

#[test]
fn copied_category_keeps_title_and_patterns() {
    let c = category("Fixes", &["^fix", "bug"]);
    let d = c.duplicate();
    assert_eq!(d.title, "Fixes");
    assert!(d.labels.is_match("bugfix") && d.labels.is_match("fixture"));
    assert!(!d.labels.is_match("docs") && !c.labels.is_match("docs"));
}

#[test]
fn empty_pattern_set_matches_nothing() {
    let none = no_labels();
    assert!(!none.is_match(""));
    assert!(!none.is_match("feature"));
    let empty = compile_labels("skip-labels", &Vec::new()).unwrap();
    assert!(!empty.is_match("x"));
    let cats = vec![category("Nothing", &[])];
    assert_eq!(classify(&strings(&["", "a"]), &empty, &cats), Classification::Uncategorized);
}
