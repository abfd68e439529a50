use libalpm_rs::util::StableList;

#[test]
fn test_push() {
    let mut list = StableList::default();
    let v1 = *list.push("once");
    let v2 = *list.push("twice");
    let v3 = *list.push("thrice");

    println!("{v3} {v2} {v1}");
    assert_eq!((v1, v2, v3), ("once", "twice", "thrice"));
    assert_eq!(list.get(0), Some(&"once"));
    assert_eq!(list.get(1), Some(&"twice"));
    assert_eq!(list.get(2), Some(&"thrice"));
    assert_eq!(list.get(3), None);
}
