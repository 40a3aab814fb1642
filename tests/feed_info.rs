use navitia_model::feed_info::FeedInfos;

#[test]
fn insert_replaces_value_of_existing_key() {
    let mut f = FeedInfos::new();
    f.insert("a".to_string(), "1".to_string());
    f.insert("b".to_string(), "2".to_string());
    f.insert("a".to_string(), "3".to_string());
    assert_eq!(f.len(), 2);
    assert_eq!(f.get("a"), Some(&"3".to_string()));
    assert_eq!(f.get("b"), Some(&"2".to_string()));
    assert_eq!(f.get("c"), None);
}

#[test]
fn extend_prefers_the_other_map() {
    let mut f = FeedInfos::new();
    f.insert("a".to_string(), "1".to_string());
    f.insert("b".to_string(), "2".to_string());
    let mut g = FeedInfos::new();
    g.insert("b".to_string(), "20".to_string());
    g.insert("c".to_string(), "30".to_string());
    f.extend(&g);
    let mut all = f.to_vec();
    all.sort();
    assert_eq!(
        all,
        vec![
            ("a".to_string(), "1".to_string()),
            ("b".to_string(), "20".to_string()),
            ("c".to_string(), "30".to_string()),
        ]
    );
}

#[test]
fn empty_feed_infos() {
    let f = FeedInfos::new();
    assert_eq!(f.len(), 0);
    assert!(f.to_vec().is_empty());
}
