use bingosync_gen::{categories, list_eligible, CardRow};

fn card(category: &str, text: &str, weight: u8, enabled: bool) -> CardRow {
    CardRow::new(category.to_string(), text.to_string(), weight, enabled)
}

fn texts(cards: &[CardRow]) -> Vec<String> {
    cards.iter().map(|c| c.text.clone()).collect()
}

#[test]
fn category_filter_keeps_matching_cards_in_order() {
    let cards = vec![
        card("catA", "x1", 100, true),
        card("catB", "x2", 100, true),
        card("catA", "x3", 100, true),
    ];
    let cat_a = "catA".to_string();
    let pool = list_eligible(&cards, Some(&cat_a));
    assert_eq!(texts(&pool), vec!["x1".to_string(), "x3".to_string()]);
}

#[test]
fn no_filter_keeps_every_enabled_card() {
    let cards = vec![
        card("catA", "x1", 100, true),
        card("catB", "x2", 100, true),
        card("catA", "x3", 100, true),
    ];
    let pool = list_eligible(&cards, None);
    assert_eq!(texts(&pool), vec!["x1", "x2", "x3"]);
}

#[test]
fn disabled_cards_never_listed() {
    let cards = vec![
        card("catA", "on1", 100, true),
        card("catA", "off1", 100, false),
        card("catB", "off2", 100, false),
        card("catB", "on2", 0, true),
    ];
    let pool = list_eligible(&cards, None);
    assert_eq!(texts(&pool), vec!["on1", "on2"]);
    for cat in ["catA", "catB", "catC"] {
        let c = cat.to_string();
        let pool = list_eligible(&cards, Some(&c));
        assert!(pool.iter().all(|c| c.enabled));
        assert!(pool.iter().all(|c| !c.text.starts_with("off")));
    }
}

#[test]
fn empty_store_gives_empty_pool() {
    let cards: Vec<CardRow> = Vec::new();
    assert!(list_eligible(&cards, None).is_empty());
    assert!(categories(&cards).is_empty());
}

#[test]
fn eligible_cards_keep_their_fields() {
    let cards = vec![card("catA", "x1", 42, true)];
    let pool = list_eligible(&cards, None);
    assert_eq!(pool.len(), 1);
    assert_eq!(pool[0].category, "catA");
    assert_eq!(pool[0].text, "x1");
    assert_eq!(pool[0].weight, 42);
    assert!(pool[0].enabled);
}

#[test]
fn categories_are_distinct_in_first_appearance_order() {
    let cards = vec![
        card("catB", "a", 1, true),
        card("catA", "b", 1, false),
        card("catB", "c", 1, true),
        card("catC", "d", 1, true),
        card("catA", "e", 1, true),
    ];
    assert_eq!(categories(&cards), vec!["catB", "catA", "catC"]);
}

#[test]
fn empty_row_defaults() {
    let row = CardRow::empty_row();
    assert_eq!(row.category, "");
    assert_eq!(row.text, "");
    assert_eq!(row.weight, 1);
    assert!(row.enabled);
}
