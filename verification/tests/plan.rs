use audiolog_randomizer::plan::{
    SoundDestination, SoundInsertion, SoundInsertionMap, SubsInsertionMap,
};

fn insertion(source: &str, dest: &str) -> SoundInsertion {
    SoundInsertion { source_file: source.to_string(), dest_file: dest.to_string() }
}

fn package(name: &str) -> SoundDestination {
    SoundDestination::Package(name.to_string())
}

#[test]
fn destinations_compare_by_place() {
    assert!(SoundDestination::Root.same(&SoundDestination::Root));
    assert!(package("a.pkg").same(&package("a.pkg")));
    assert!(!package("a.pkg").same(&package("b.pkg")));
    assert!(!package("a.pkg").same(&SoundDestination::Root));
    assert!(!SoundDestination::Root.same(&package("")));
}

#[test]
fn new_sound_map_is_empty() {
    let map = SoundInsertionMap::new();
    assert_eq!(map.len(), 0);
    assert!(!map.contains_key(&SoundDestination::Root));
    assert_eq!(map.get(&SoundDestination::Root), None);
    assert_eq!(map.into_groups(), Vec::new());
}

#[test]
fn sound_map_groups_by_destination_in_order() {
    let mut map = SoundInsertionMap::new();
    map.add(package("a.pkg"), insertion("1.ogg", "x.sound"));
    map.add(SoundDestination::Root, insertion("2.ogg", "y.sound"));
    map.add(package("a.pkg"), insertion("3.ogg", "z.sound"));
    assert_eq!(map.len(), 2);
    assert!(map.contains_key(&package("a.pkg")));
    assert!(map.contains_key(&SoundDestination::Root));
    assert!(!map.contains_key(&package("b.pkg")));
    assert_eq!(
        map.get(&package("a.pkg")),
        Some(&vec![insertion("1.ogg", "x.sound"), insertion("3.ogg", "z.sound")])
    );
    assert_eq!(map.get(&SoundDestination::Root), Some(&vec![insertion("2.ogg", "y.sound")]));
    assert_eq!(map.group(0).destination, package("a.pkg"));
    assert_eq!(map.group(1).destination, SoundDestination::Root);
    let groups = map.into_groups();
    assert_eq!(groups.len(), 2);
    assert_eq!(groups[0].files.len(), 2);
    assert_eq!(groups[1].files, vec![insertion("2.ogg", "y.sound")]);
}

#[test]
fn new_subs_map_is_empty() {
    let map = SubsInsertionMap::new();
    assert_eq!(map.len(), 0);
    assert!(!map.contains_key("k"));
    assert_eq!(map.get("k"), None);
}

#[test]
fn subs_map_tells_absent_from_no_caption() {
    let mut map = SubsInsertionMap::new();
    map.insert("with".to_string(), Some("x.sub".to_string()));
    map.insert("without".to_string(), None);
    assert_eq!(map.len(), 2);
    assert_eq!(map.get("with"), Some(&Some("x.sub".to_string())));
    assert_eq!(map.get("without"), Some(&None));
    assert_eq!(map.get("absent"), None);
    assert!(map.contains_key("without"));
    assert!(!map.contains_key("absent"));
}

#[test]
fn subs_map_insert_replaces_an_earlier_decision() {
    let mut map = SubsInsertionMap::new();
    map.insert("k".to_string(), Some("x.sub".to_string()));
    map.insert("j".to_string(), None);
    map.insert("k".to_string(), None);
    assert_eq!(map.len(), 2);
    assert_eq!(map.get("k"), Some(&None));
    assert_eq!(map.entry(0).key, "k");
    assert_eq!(map.entry(1).key, "j");
}
