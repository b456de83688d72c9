use symptom_match::knowledge::RankedResult;
use symptom_match::ranking::rank;
use symptom_match::score::Score;

fn result(name: &str, matched: usize, total: usize, bonus: bool) -> RankedResult {
    RankedResult {
        diagnosis_name: name.to_string(),
        score: Score::new(matched, total, bonus).unwrap(),
        recommended_action: "act".to_string(),
    }
}

fn names(results: &[RankedResult]) -> Vec<&str> {
    results.iter().map(|r| r.diagnosis_name.as_str()).collect()
}

#[test]
fn score_needs_a_match_and_no_more_matches_than_symptoms() {
    assert!(Score::new(0, 3, false).is_none());
    assert!(Score::new(0, 0, true).is_none());
    assert!(Score::new(4, 3, false).is_none());
    let score = Score::new(2, 3, true).unwrap();
    assert_eq!((score.matched(), score.total(), score.has_bonus()), (2, 3, true));
    let certain = Score::certain();
    assert_eq!((certain.matched(), certain.total(), certain.has_bonus()), (1, 1, false));
}

#[test]
fn scores_compare_as_fractions() {
    let s = |m, t, b| Score::new(m, t, b).unwrap();
    assert!(s(2, 3, false).at_least(&s(1, 2, false)));
    assert!(!s(1, 2, false).at_least(&s(2, 3, false)));
    assert!(s(1, 2, false).at_least(&s(2, 4, false)));
    assert!(s(2, 4, false).at_least(&s(1, 2, false)));
    assert!(s(1, 3, true).at_least(&s(1, 3, false)));
    assert!(!s(1, 3, false).at_least(&s(1, 3, true)));
}

#[test]
fn the_bonus_is_worth_ten_points() {
    let s = |m, t, b| Score::new(m, t, b).unwrap();
    // 90 + 10 against 100
    assert!(s(9, 10, true).at_least(&s(1, 1, false)));
    assert!(s(1, 1, false).at_least(&s(9, 10, true)));
    // 89 + 10 against 100
    assert!(!s(89, 100, true).at_least(&s(1, 1, false)));
    assert!(s(1, 1, false).at_least(&s(89, 100, true)));
    // 91 + 10 against 100
    assert!(s(91, 100, true).at_least(&s(1, 1, false)));
    assert!(!s(1, 1, false).at_least(&s(91, 100, true)));
    // 33.3 + 10 against 43 and 44
    assert!(s(1, 3, true).at_least(&s(43, 100, false)));
    assert!(!s(1, 3, true).at_least(&s(44, 100, false)));
    assert!(s(44, 100, false).at_least(&s(1, 3, true)));
}

#[test]
fn large_counts_compare_without_overflow() {
    let top = usize::MAX;
    let s = |m, t, b| Score::new(m, t, b).unwrap();
    assert!(s(top, top, true).at_least(&s(top, top, false)));
    assert!(!s(top, top, false).at_least(&s(top, top, true)));
    assert!(s(top, top, false).at_least(&s(top - 1, top, false)));
    assert!(!s(top - 1, top, false).at_least(&s(top, top, false)));
    assert!(s(top - 1, top, true).at_least(&s(top, top, false)));
    assert!(s(1, top, true).at_least(&s(top / 10, top, false)));
    assert!(!s(1, top, false).at_least(&s(1, top, true)));
}

#[test]
fn rank_orders_by_score_highest_first() {
    let ranked = rank(vec![
        result("c", 1, 4, false),
        result("a", 1, 1, true),
        result("d", 1, 5, false),
        result("b", 1, 2, true),
    ]);
    assert_eq!(names(&ranked), vec!["a", "b", "c", "d"]);
}

#[test]
fn rank_is_stable() {
    let ranked = rank(vec![
        result("x1", 1, 2, false),
        result("top", 1, 1, false),
        result("x2", 2, 4, false),
        result("low", 1, 9, false),
        result("x3", 3, 6, false),
        result("top2", 9, 10, true),
    ]);
    assert_eq!(names(&ranked), vec!["top", "top2", "x1", "x2", "x3", "low"]);
}

#[test]
fn rank_keeps_everything() {
    assert!(rank(Vec::new()).is_empty());
    let one = rank(vec![result("only", 1, 3, false)]);
    assert_eq!(names(&one), vec!["only"]);
    let twins = rank(vec![result("t", 1, 3, false), result("t", 1, 3, false)]);
    assert_eq!(twins.len(), 2);
    assert_eq!(twins[0], twins[1]);
}
