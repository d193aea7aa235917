use nara::brainiac::models::{Rating, UpdateItem};
use nara::brainiac::operations::{
    days_elapsed, group_tags, is_learned, prepare_tag, select_practice_items_query, update_lapses,
    update_reps, SqlParam,
};

const ORDER: &str = " ORDER BY CASE WHEN s.stability IS NULL THEN 0 ELSE 1 END ASC, CAST(? - COALESCE(s.last_reviewed_at, 0) AS REAL) / (COALESCE(s.stability, 1.0) * 86400.0) DESC LIMIT ?";
const SELECT: &str = "SELECT i.id, i.front FROM item i JOIN item_state s ON s.item_id = i.id";

#[test]
fn tags_are_trimmed_and_uppercased() {
    assert_eq!(prepare_tag("  rust lang \n".to_string()), "RUST LANG");
    assert_eq!(prepare_tag("straße".to_string()), "STRASSE");
    assert_eq!(prepare_tag("   ".to_string()), "");
}

#[test]
fn padding_around_a_tag_does_not_matter() {
    assert_eq!(prepare_tag(" \t rust ".to_string()), prepare_tag("rust".to_string()));
    let once = prepare_tag("  rust lang ".to_string());
    assert_eq!(prepare_tag(once.clone()), once);
}

#[test]
fn reps_count_successful_recalls() {
    assert_eq!(update_reps(Rating::Again, 3), 3);
    assert_eq!(update_reps(Rating::Hard, 3), 4);
    assert_eq!(update_reps(Rating::Good, 0), 1);
    assert_eq!(update_reps(Rating::Easy, 9), 10);
}

#[test]
fn lapses_count_forgotten_learned_items() {
    assert_eq!(update_lapses(Rating::Again, 2, true), 3);
    assert_eq!(update_lapses(Rating::Again, 2, false), 2);
    assert_eq!(update_lapses(Rating::Hard, 2, true), 2);
    assert!(is_learned(1, 0));
    assert!(!is_learned(0, 5));
}

#[test]
fn a_rating_moves_at_most_one_counter() {
    for rating in [Rating::Again, Rating::Hard, Rating::Good, Rating::Easy] {
        for reps in [0u32, 1, 5] {
            let learned = is_learned(reps, 0);
            let r = update_reps(rating, reps);
            let l = update_lapses(rating, 7, learned);
            assert!((r - reps) + (l - 7) <= 1);
            assert_eq!((r - reps) + (l - 7) == 0, !learned && rating == Rating::Again);
        }
    }
}

#[test]
fn rating_numbers() {
    assert_eq!(
        [Rating::Again, Rating::Hard, Rating::Good, Rating::Easy].map(|r| r.as_u8()),
        [1, 2, 3, 4]
    );
}

#[test]
fn days_since_last_review() {
    assert_eq!(days_elapsed(None, 1_000_000), 0);
    assert_eq!(days_elapsed(Some(0), 86399), 0);
    assert_eq!(days_elapsed(Some(0), 86400), 1);
    assert_eq!(days_elapsed(Some(0), 3 * 86400 + 5), 3);
    assert_eq!(days_elapsed(Some(100), 0), 0);
}

#[test]
fn update_item_emptiness() {
    assert!(UpdateItem { front: None, back: None }.is_empty());
    assert!(!UpdateItem { front: Some("q".into()), back: None }.is_empty());
}

#[test]
fn practice_query_without_filters() {
    let q = select_practice_items_query(5, None, Some(vec![]), 1000);
    assert_eq!(q.sql, format!("{SELECT}{ORDER}"));
    assert_eq!(q.params, vec![SqlParam::Int(1000), SqlParam::Int(5)]);
}

#[test]
fn practice_query_with_categories_and_tags() {
    let q = select_practice_items_query(1, Some(vec![3, 4]), Some(vec![" go ".into()]), 7);
    assert_eq!(
        q.sql,
        format!(
            "{SELECT} WHERE i.category_id IN (?, ?) OR i.category_id IN (SELECT category_id FROM category_tag_link WHERE tag_name IN (?)){ORDER}"
        )
    );
    assert_eq!(
        q.params,
        vec![SqlParam::Int(3), SqlParam::Int(4), SqlParam::Text("GO".into()), SqlParam::Int(7), SqlParam::Int(1)]
    );
    let q = select_practice_items_query(2, None, Some(vec!["a".into(), "b".into()]), 0);
    assert_eq!(
        q.sql,
        format!(
            "{SELECT} WHERE i.category_id IN (SELECT category_id FROM category_tag_link WHERE tag_name IN (?, ?)){ORDER}"
        )
    );
}

#[test]
fn tags_grouped_by_category() {
    let ids = vec![1, 2, 3];
    let links = vec![(2, "B".to_string()), (1, "A".to_string()), (9, "X".to_string()), (2, "C".to_string())];
    let g = group_tags(&ids, links);
    assert_eq!(g, vec![vec!["A".to_string()], vec!["B".to_string(), "C".to_string()], vec![]]);
}
