use cargo_chrono::order::position;

fn texts(all: &[&str]) -> Vec<String> {
    all.iter().map(|t| t.to_string()).collect()
}

#[test]
fn position_finds_the_first_place() {
    let items = texts(&["a", "b", "a", "c", "b"]);
    assert_eq!(position(&items, &"a".to_string()), Some(0));
    assert_eq!(position(&items, &"b".to_string()), Some(1));
    assert_eq!(position(&items, &"c".to_string()), Some(3));
}

#[test]
fn position_of_what_is_absent_is_none() {
    let items = texts(&["a", "b"]);
    assert_eq!(position(&items, &"ab".to_string()), None);
    assert_eq!(position(&items, &"".to_string()), None);
    assert_eq!(position(&vec![], &"a".to_string()), None);
}
