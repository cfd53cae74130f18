use audiolog_randomizer::catalog::{AudioLog, DataStore};
use audiolog_randomizer::plan::SoundDestination;

fn slot(package: Option<&str>, filename: &str, subtitle: &str) -> AudioLog {
    AudioLog {
        package: package.map(|p| p.to_string()),
        filename: filename.to_string(),
        subtitle: subtitle.to_string(),
    }
}

#[test]
fn store_hands_out_its_slots_in_order() {
    let logs = vec![slot(None, "a.sound", "k1"), slot(Some("p.pkg"), "b.sound", "k2")];
    let store = DataStore::new(logs.clone());
    assert_eq!(store.len(), 2);
    assert_eq!(store.get_logs(), logs);
    assert_eq!(store.get_logs(), store.get_logs());
}

#[test]
fn empty_store() {
    let store = DataStore::new(Vec::new());
    assert_eq!(store.len(), 0);
    assert_eq!(store.get_logs(), Vec::new());
    assert!(store.has_distinct_locations());
}

#[test]
fn slots_are_located_by_package_and_file_name() {
    let a = slot(None, "a.sound", "k1");
    assert!(a.same_location(&slot(None, "a.sound", "other key")));
    assert!(!a.same_location(&slot(None, "b.sound", "k1")));
    assert!(!a.same_location(&slot(Some("p.pkg"), "a.sound", "k1")));
    let b = slot(Some("p.pkg"), "a.sound", "k1");
    assert!(b.same_location(&slot(Some("p.pkg"), "a.sound", "k2")));
    assert!(!b.same_location(&slot(Some("q.pkg"), "a.sound", "k1")));
    assert_eq!(a.duplicate(), a);
    assert_eq!(b.duplicate(), b);
}

#[test]
fn store_checks_that_locations_are_distinct() {
    let good = DataStore::new(vec![
        slot(None, "a.sound", "k1"),
        slot(Some("p.pkg"), "a.sound", "k2"),
        slot(Some("q.pkg"), "a.sound", "k3"),
        slot(None, "b.sound", "k4"),
    ]);
    assert!(good.has_distinct_locations());
    let bad = DataStore::new(vec![
        slot(Some("p.pkg"), "a.sound", "k1"),
        slot(None, "b.sound", "k2"),
        slot(Some("p.pkg"), "a.sound", "k3"),
    ]);
    assert!(!bad.has_distinct_locations());
}

#[test]
fn slot_destination_is_its_package_or_the_root() {
    assert_eq!(slot(None, "a.sound", "k1").destination(), SoundDestination::Root);
    assert_eq!(
        slot(Some("p.pkg"), "a.sound", "k1").destination(),
        SoundDestination::Package("p.pkg".to_string())
    );
    assert_eq!(
        slot(Some(""), "a.sound", "k1").destination(),
        SoundDestination::Package(String::new())
    );
}

#[test]
fn store_checks_that_subtitle_keys_are_distinct() {
    let good = DataStore::new(vec![
        slot(None, "a.sound", "k1"),
        slot(None, "b.sound", "k2"),
        slot(Some("p.pkg"), "a.sound", "k3"),
    ]);
    assert!(good.has_distinct_subtitles());
    let bad = DataStore::new(vec![
        slot(None, "a.sound", "k1"),
        slot(None, "b.sound", "k2"),
        slot(Some("p.pkg"), "c.sound", "k1"),
    ]);
    assert!(!bad.has_distinct_subtitles());
    assert!(bad.has_distinct_locations());
    assert!(DataStore::new(Vec::new()).has_distinct_subtitles());
}
