use curator::data::{find_pair, ProjectData};

fn pair(k: &str, v: &str) -> (String, String) {
    (k.to_string(), v.to_string())
}

#[test]
fn new_data_is_empty() {
    let data = ProjectData::new();
    assert!(data.pairs().is_empty());
    assert_eq!(data.get("license"), None);
    assert!(!data.contains_key("license"));
}

#[test]
fn insert_binds_and_rebinds() {
    let mut data = ProjectData::new();
    data.insert("license".to_string(), "MIT".to_string());
    data.insert("year".to_string(), "2024".to_string());
    assert_eq!(data.get("license"), Some(&"MIT".to_string()));
    assert!(data.contains_key("year"));
    data.insert("license".to_string(), "ISC".to_string());
    assert_eq!(data.get("license"), Some(&"ISC".to_string()));
    assert_eq!(data.pairs(), vec![pair("license", "ISC"), pair("year", "2024")]);
}

#[test]
fn keys_are_compared_exactly() {
    let mut data = ProjectData::new();
    data.insert("Year".to_string(), "1".to_string());
    assert_eq!(data.get("year"), None);
    assert_eq!(data.get("Year "), None);
    assert_eq!(data.get("Year"), Some(&"1".to_string()));
}

#[test]
fn from_pairs_lets_the_last_pair_win() {
    let pairs = vec![pair("a", "1"), pair("b", "2"), pair("a", "3")];
    let data = ProjectData::from_pairs(&pairs);
    assert_eq!(data.get("a"), Some(&"3".to_string()));
    assert_eq!(data.get("b"), Some(&"2".to_string()));
    assert_eq!(data.pairs().len(), 2);
    assert_eq!(find_pair(&pairs, "a"), Some(2));
    assert_eq!(find_pair(&pairs, "b"), Some(1));
    assert_eq!(find_pair(&pairs, "c"), None);
}

#[test]
fn clone_keeps_the_bindings() {
    let mut data = ProjectData::new();
    data.insert("k".to_string(), "v".to_string());
    let copy = data.clone();
    data.insert("k".to_string(), "w".to_string());
    assert_eq!(copy.get("k"), Some(&"v".to_string()));
    assert_eq!(data.get("k"), Some(&"w".to_string()));
}
