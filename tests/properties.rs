use value_select::{attempt, binary_search, Content, SearchResult};

fn ints(v: &[Content]) -> Vec<Option<i32>> {
    v.iter()
        .map(|c| match c {
            Content::Int(n) => Some(*n),
            Content::Any => None,
        })
        .collect()
}

fn concrete(v: &[i32]) -> Vec<Content> {
    v.iter().map(|n| Content::Int(*n)).collect()
}

#[test]
fn empty_input_gives_empty_result() {
    let some = concrete(&[240, 360]);
    assert!(attempt(&[], &some, &some).is_empty());
    assert!(attempt(&some, &[], &some).is_empty());
    assert!(attempt(&some, &some, &[]).is_empty());
    assert!(attempt(&[], &[Content::Any], &[Content::Any]).is_empty());
}

#[test]
fn result_has_no_repeats_when_fallbacks_revisit_values() {
    let available = concrete(&[100, 200, 300, 400]);
    let allowed = concrete(&[100, 200, 400]);
    let preferred = concrete(&[300, 350, 370]);
    let r = attempt(&available, &allowed, &preferred);
    assert_eq!(ints(&r), vec![Some(400), Some(200)]);
}

#[test]
fn result_values_come_from_available() {
    let available = vec![Content::Any];
    let allowed = concrete(&[3]);
    let preferred = concrete(&[3]);
    let r = attempt(&available, &allowed, &preferred);
    assert_eq!(ints(&r), vec![None]);
}

#[test]
fn wildcard_in_both_returns_available() {
    let available = concrete(&[1, 5, 9]);
    let allowed = vec![Content::Int(5), Content::Any];
    let preferred = vec![Content::Int(5), Content::Any];
    let r = attempt(&available, &allowed, &preferred);
    assert_eq!(ints(&r), vec![Some(1), Some(5), Some(9)]);

    let r = attempt(&available, &[Content::Any], &[Content::Any]);
    assert_eq!(ints(&r), vec![Some(1), Some(5), Some(9)]);
}

#[test]
fn wildcard_preferred_offers_each_allowed_value() {
    let available = concrete(&[240, 360, 720]);
    let allowed = concrete(&[240, 720, 1080]);
    let r = attempt(&available, &allowed, &[Content::Any]);
    assert_eq!(ints(&r), vec![Some(240), Some(720)]);
}

#[test]
fn wildcard_allowed_accepts_preferred_value() {
    let available = concrete(&[500]);
    let r = attempt(&available, &[Content::Any], &concrete(&[500]));
    assert_eq!(ints(&r), vec![Some(500)]);
}

#[test]
fn missing_value_falls_back_to_lower_neighbour() {
    let available = concrete(&[200]);
    let allowed = concrete(&[100, 200, 400]);
    let r = attempt(&available, &allowed, &concrete(&[300]));
    assert_eq!(ints(&r), vec![Some(200)]);
}

#[test]
fn first_allowed_position_is_never_a_lower_fallback() {
    let available = concrete(&[100]);
    let allowed = concrete(&[100, 400]);
    let r = attempt(&available, &allowed, &concrete(&[300]));
    assert!(r.is_empty());
}

#[test]
fn matched_value_falls_back_to_higher_then_lower() {
    let available = concrete(&[100, 300]);
    let allowed = concrete(&[100, 200, 300, 400]);
    let r = attempt(&available, &allowed, &concrete(&[200]));
    assert_eq!(ints(&r), vec![Some(300)]);

    let available = concrete(&[200]);
    let allowed = concrete(&[100, 200, 300, 400]);
    let r = attempt(&available, &allowed, &concrete(&[300]));
    assert_eq!(ints(&r), vec![Some(200)]);
}

#[test]
fn search_finds_members() {
    let arr = concrete(&[10, 20, 30]);
    assert_eq!(binary_search(&Content::Int(20), &arr), SearchResult::Found(1));
    assert_eq!(binary_search(&Content::Int(10), &arr), SearchResult::Found(0));
    assert_eq!(binary_search(&Content::Int(30), &arr), SearchResult::Found(2));
    assert_eq!(binary_search(&Content::Int(10), &concrete(&[10])), SearchResult::Found(0));
    assert_eq!(binary_search(&Content::Any, &arr), SearchResult::Found(1));
}

#[test]
fn search_reports_insertion_position() {
    let arr = concrete(&[10, 20, 30]);
    assert_eq!(binary_search(&Content::Int(25), &arr), SearchResult::NotFound(2));
    assert_eq!(binary_search(&Content::Int(15), &arr), SearchResult::NotFound(1));
    assert_eq!(binary_search(&Content::Int(5), &arr), SearchResult::NotFound(0));
    assert_eq!(binary_search(&Content::Int(35), &arr), SearchResult::NotFound(3));
    assert_eq!(binary_search(&Content::Int(20), &[]), SearchResult::NotFound(0));
    assert_eq!(binary_search(&Content::Int(20), &concrete(&[10])), SearchResult::NotFound(1));
}

#[test]
fn wildcard_equality_and_order() {
    assert!(Content::Int(1) == Content::Any);
    assert!(Content::Any == Content::Int(1));
    assert!(Content::Any == Content::Any);
    assert!(Content::Int(1) != Content::Int(2));
    assert!(Content::Int(1) < Content::Int(2));
    assert!(Content::Int(3) > Content::Int(2));
    assert!(!(Content::Any < Content::Int(1)));
    assert!(!(Content::Any > Content::Int(1)));
    assert!(!(Content::Int(1) > Content::Any));
    assert_eq!(
        Content::Any.partial_cmp(&Content::Int(4)),
        Some(std::cmp::Ordering::Equal)
    );
    assert_eq!(
        Content::Int(4).partial_cmp(&Content::Int(9)),
        Some(std::cmp::Ordering::Less)
    );
}

#[test]
fn conversions_to_and_from_integers() {
    assert_eq!(ints(&[Content::from(7)]), vec![Some(7)]);
    assert_eq!(Content::Int(-3).to_int(), -3);
    assert!(Content::Any.is_any());
    assert!(!Content::Int(0).is_any());
}
