use feedgen::names::{compare_names, same_name, NameMap, Order};

#[test]
fn names_compare_as_strings_do() {
    let samples = ["", "a", "A", "ab", "b", "é", "z", "zz", "日本", "a\u{0}"];
    for x in samples {
        for y in samples {
            let expected = match x.cmp(y) {
                std::cmp::Ordering::Less => Order::Before,
                std::cmp::Ordering::Equal => Order::Same,
                std::cmp::Ordering::Greater => Order::After,
            };
            assert_eq!(compare_names(x, y), expected, "{x:?} against {y:?}");
            assert_eq!(same_name(x, y), x == y);
        }
    }
}

#[test]
fn a_name_map_keeps_its_names_in_order() {
    let mut map: NameMap<u32> = NameMap::new();
    assert_eq!(map.len(), 0);
    map.insert("pears".to_string(), 1);
    map.insert("apples".to_string(), 2);
    map.insert("quinces".to_string(), 3);
    map.insert("bananas".to_string(), 4);
    assert_eq!(map.len(), 4);
    let names: Vec<&str> = (0..map.len()).map(|i| map.name_at(i)).collect();
    assert_eq!(names, vec!["apples", "bananas", "pears", "quinces"]);
    let values: Vec<u32> = (0..map.len()).map(|i| *map.value_at(i)).collect();
    assert_eq!(values, vec![2, 4, 1, 3]);
}

#[test]
fn a_name_map_holds_each_name_once() {
    let mut map: NameMap<u32> = NameMap::new();
    map.insert("a".to_string(), 1);
    map.insert("b".to_string(), 2);
    map.insert("a".to_string(), 3);
    assert_eq!(map.len(), 2);
    assert_eq!(map.get("a"), Some(&3));
    assert_eq!(map.get("b"), Some(&2));
    assert_eq!(map.get("c"), None);
    assert_eq!(map.find("b"), Some(1));
    assert_eq!(map.find(""), None);
}

#[test]
fn a_name_map_can_be_made_from_its_parts() {
    let map = NameMap::from_parts(vec!["a".to_string(), "b".to_string()], vec![10u8, 20u8]);
    assert_eq!(map.get("a"), Some(&10));
    assert_eq!(map.get("b"), Some(&20));
}
