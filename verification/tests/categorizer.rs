use cashtrack::categorizer::categorizer;
use cashtrack::config::Category;

fn rules() -> Vec<Category> {
    vec![
        Category::new(
            "groceries".to_string(),
            vec!["woolworths".to_string(), "coles".to_string(), "pearl".to_string()],
            60,
        ),
        Category::new(
            "fuel".to_string(),
            vec!["ampol".to_string(), "pearl".to_string()],
            70,
        ),
    ]
}

#[test]
fn assigns_category_on_keyword_match() {
    let desc = "WOOLWORTHS 2764 NERANG QL AUS Card xx8935".to_string();
    assert_eq!(categorizer(&rules(), &desc), "groceries");
}

#[test]
fn higher_priority_wins_when_multiple_keywords_match() {
    let desc = "PEARL SOUTHPORT SOUTHPORT QL AUS Card xx5231".to_string();
    assert_eq!(categorizer(&rules(), &desc), "fuel");
}

#[test]
fn returns_unknown_when_no_match() {
    assert_eq!(categorizer(&rules(), &"EasyPark"), "Unknown");
}

#[test]
fn earlier_rule_wins_ties() {
    let rules = vec![
        Category::new("first".to_string(), vec!["shop".to_string()], 5),
        Category::new("second".to_string(), vec!["shop".to_string()], 5),
    ];
    assert_eq!(categorizer(&rules, "the SHOP"), "first");
}

#[test]
fn zero_priority_never_wins() {
    let rules = vec![Category::new("free".to_string(), vec!["shop".to_string()], 0)];
    assert_eq!(categorizer(&rules, "shop"), "Unknown");
}

#[test]
fn keywords_are_compared_in_lower_case() {
    let rules = vec![Category::new("eating out".to_string(), vec!["McDonalds".to_string()], 1)];
    assert_eq!(categorizer(&rules, "MCDONALDS 123"), "eating out");
}

#[test]
fn no_rules_give_unknown() {
    assert_eq!(categorizer(&Vec::new(), "anything"), "Unknown");
}

#[test]
fn rule_order_does_not_matter_with_distinct_priorities() {
    let mut reversed = rules();
    reversed.reverse();
    for desc in ["PEARL SOUTHPORT", "WOOLWORTHS 2764", "ampol", "nothing"] {
        assert_eq!(categorizer(&reversed, desc), categorizer(&rules(), desc));
    }
}

#[test]
fn letter_case_does_not_matter() {
    assert_eq!(categorizer(&rules(), "Pearl Southport"), categorizer(&rules(), "PEARL SOUTHPORT"));
}
