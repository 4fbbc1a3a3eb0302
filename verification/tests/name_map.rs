use raytracer::name_map::NameMap;

#[test]
fn empty_map() {
    let names: NameMap<usize> = NameMap::new();
    assert_eq!(names.len(), 0);
    assert_eq!(names.get(&String::from("a")), None);
    assert_eq!(names.find(&String::from("a")), None);
    assert!(names.entries().is_empty());
}

#[test]
fn insert_and_get() {
    let mut names: NameMap<usize> = NameMap::new();
    names.insert(String::from("bark"), 0);
    names.insert(String::from("leaf"), 1);
    assert_eq!(names.len(), 2);
    assert_eq!(names.get(&String::from("bark")), Some(&0));
    assert_eq!(names.get(&String::from("leaf")), Some(&1));
    assert_eq!(names.get(&String::from("lea")), None);
    assert_eq!(names.get(&String::from("")), None);
    assert_eq!(names.find(&String::from("leaf")), Some(1));
}

#[test]
fn insert_replaces_in_place() {
    let mut names: NameMap<usize> = NameMap::new();
    names.insert(String::from("a"), 0);
    names.insert(String::from("b"), 1);
    names.insert(String::from("a"), 2);
    assert_eq!(names.len(), 2);
    assert_eq!(names.entries().clone(), vec![(String::from("a"), 2), (String::from("b"), 1)]);
    assert_eq!(names.get(&String::from("a")), Some(&2));
}

#[test]
fn empty_name_is_a_name() {
    let mut names: NameMap<usize> = NameMap::new();
    names.insert(String::new(), 5);
    assert_eq!(names.get(&String::new()), Some(&5));
    assert_eq!(names.get(&String::from(" ")), None);
}
