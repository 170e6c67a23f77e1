use jiji_hamster_bridge::config::ActivityRule;
use jiji_hamster_bridge::table::Table;

fn rule(category: &str) -> ActivityRule {
    ActivityRule {
        entity: None,
        category: category.into(),
        placeholder_activity: None,
        placeholder_description: None,
    }
}

#[test]
fn entries_stand_in_the_order_of_their_keys() {
    let mut t: Table<ActivityRule> = Table::new();
    assert_eq!(t.len(), 0);
    for key in ["b", "a", "ab", "", "é", "z", "/x/"] {
        t.insert(key.to_string(), rule(key));
    }
    let keys: Vec<&str> = (0..t.len()).map(|i| t.key_at(i).as_str()).collect();
    assert_eq!(keys, vec!["", "/x/", "a", "ab", "b", "z", "é"]);
    for i in 0..t.len() {
        assert_eq!(t.value_at(i).category, *t.key_at(i));
    }
}

#[test]
fn inserting_again_replaces() {
    let mut t: Table<ActivityRule> = Table::new();
    t.insert("a".to_string(), rule("first"));
    t.insert("b".to_string(), rule("other"));
    t.insert("a".to_string(), rule("second"));
    assert_eq!(t.len(), 2);
    assert_eq!(t.get("a").unwrap().category, "second");
    assert_eq!(t.get("b").unwrap().category, "other");
    assert!(t.get("c").is_none());
}
