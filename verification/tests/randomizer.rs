use audiolog_randomizer::catalog::AudioLog;
use audiolog_randomizer::plan::{SoundDestination, SoundInsertion};
use audiolog_randomizer::randomizer::{
    get_entries, give_to_all, pair_up, randomize, DirItem, NewLog,
};
use audiolog_randomizer::shuffle::{draw_orders, identity_order};

fn slot(package: Option<&str>, filename: &str, subtitle: &str) -> AudioLog {
    AudioLog {
        package: package.map(|p| p.to_string()),
        filename: filename.to_string(),
        subtitle: subtitle.to_string(),
    }
}

fn candidate(audio: &str, subs: Option<&str>) -> NewLog {
    NewLog { audio: audio.to_string(), subs: subs.map(|s| s.to_string()) }
}

fn listed(path: &str, is_file: bool) -> DirItem {
    DirItem { path: path.to_string(), is_file }
}

fn insertion(source: &str, dest: &str) -> SoundInsertion {
    SoundInsertion { source_file: source.to_string(), dest_file: dest.to_string() }
}

fn catalog(n: usize) -> Vec<AudioLog> {
    (0..n)
        .map(|i| {
            let package = if i % 3 == 0 { None } else { Some(format!("p{}.pkg", i % 3)) };
            AudioLog {
                package,
                filename: format!("slot{}.sound", i),
                subtitle: format!("key{}", i),
            }
        })
        .collect()
}

fn candidates(n: usize) -> Vec<NewLog> {
    (0..n)
        .map(|i| NewLog {
            audio: format!("in/c{}.ogg", i),
            subs: if i % 2 == 0 { Some(format!("in/c{}.sub", i)) } else { None },
        })
        .collect()
}

fn is_rearrangement(order: &[usize]) -> bool {
    let mut seen = vec![false; order.len()];
    for &i in order {
        if i >= order.len() || seen[i] {
            return false;
        }
        seen[i] = true;
    }
    true
}

#[test]
fn discovery_finds_audio_files_with_their_captions() {
    let listing = vec![
        listed("in/b.ogg", true),
        listed("in/b.sub", true),
        listed("in/readme.txt", true),
        listed("in/a.ogg", true),
        listed("in/c.sub", true),
    ];
    assert_eq!(
        get_entries(&listing),
        vec![candidate("in/b.ogg", Some("in/b.sub")), candidate("in/a.ogg", None)]
    );
}

#[test]
fn discovery_passes_over_directories_and_other_extensions() {
    let listing = vec![
        listed("in/dir.ogg", false),
        listed("in/x.OGG", true),
        listed("in/x.ogg.bak", true),
        listed("in/.ogg", true),
        listed("in/ogg", true),
    ];
    assert_eq!(get_entries(&listing), Vec::new());
    assert_eq!(get_entries(&Vec::new()), Vec::new());
}

#[test]
fn discovery_takes_any_entry_as_caption() {
    let listing = vec![listed("in/x.sub", false), listed("in/x.ogg", true)];
    assert_eq!(get_entries(&listing), vec![candidate("in/x.ogg", Some("in/x.sub"))]);
}

#[test]
fn pairing_follows_the_given_orders() {
    let slots = vec![
        slot(None, "a.sound", "k1"),
        slot(Some("p.pkg"), "b.sound", "k2"),
        slot(Some("p.pkg"), "c.sound", "k3"),
    ];
    let cands = vec![candidate("x.ogg", Some("x.sub")), candidate("y.ogg", None)];
    let (sounds, subs) = pair_up(&vec![2, 0, 1], &vec![1, 0], &slots, &cands);
    assert_eq!(sounds.len(), 2);
    assert_eq!(
        sounds.get(&SoundDestination::Package("p.pkg".to_string())),
        Some(&vec![insertion("y.ogg", "c.sound")])
    );
    assert_eq!(sounds.get(&SoundDestination::Root), Some(&vec![insertion("x.ogg", "a.sound")]));
    assert_eq!(sounds.group(0).destination, SoundDestination::Package("p.pkg".to_string()));
    assert_eq!(subs.len(), 2);
    assert_eq!(subs.get("k3"), Some(&None));
    assert_eq!(subs.get("k1"), Some(&Some("x.sub".to_string())));
    assert_eq!(subs.get("k2"), None);
}

#[test]
fn pairing_appends_to_a_group_in_pair_order() {
    let slots = vec![
        slot(Some("p.pkg"), "a.sound", "k1"),
        slot(Some("p.pkg"), "b.sound", "k2"),
        slot(Some("p.pkg"), "c.sound", "k3"),
    ];
    let cands = vec![candidate("x.ogg", None), candidate("y.ogg", None), candidate("z.ogg", None)];
    let (sounds, subs) = pair_up(&vec![1, 2, 0], &vec![0, 1, 2], &slots, &cands);
    assert_eq!(sounds.len(), 1);
    assert_eq!(
        sounds.get(&SoundDestination::Package("p.pkg".to_string())),
        Some(&vec![
            insertion("x.ogg", "b.sound"),
            insertion("y.ogg", "c.sound"),
            insertion("z.ogg", "a.sound"),
        ])
    );
    assert_eq!(subs.len(), 3);
}

#[test]
fn pairing_stops_when_slots_run_out() {
    let slots = vec![slot(None, "a.sound", "k1")];
    let cands = vec![candidate("x.ogg", None), candidate("y.ogg", None)];
    let (sounds, subs) = pair_up(&vec![0], &vec![1, 0], &slots, &cands);
    assert_eq!(sounds.get(&SoundDestination::Root), Some(&vec![insertion("y.ogg", "a.sound")]));
    assert_eq!(sounds.len(), 1);
    assert_eq!(subs.len(), 1);
}

#[test]
fn pairing_with_shared_subtitle_key_lets_the_later_pair_decide() {
    let slots = vec![slot(None, "a.sound", "k"), slot(None, "b.sound", "k")];
    let cands = vec![candidate("x.ogg", Some("x.sub")), candidate("y.ogg", None)];
    let (_, subs) = pair_up(&vec![0, 1], &vec![0, 1], &slots, &cands);
    assert_eq!(subs.len(), 1);
    assert_eq!(subs.get("k"), Some(&None));
}

#[test]
fn nothing_to_pair_gives_empty_plan() {
    let (sounds, subs) = randomize(7, &Vec::new(), &catalog(5));
    assert_eq!(sounds.len(), 0);
    assert_eq!(subs.len(), 0);
    let (sounds, subs) = randomize(7, &candidates(5), &Vec::new());
    assert_eq!(sounds.len(), 0);
    assert_eq!(subs.len(), 0);
    let (sounds, subs) = randomize(7, &Vec::new(), &Vec::new());
    assert_eq!(sounds.len(), 0);
    assert_eq!(subs.len(), 0);
}

#[test]
fn identity_order_counts_up() {
    assert_eq!(identity_order(0), Vec::<usize>::new());
    assert_eq!(identity_order(4), vec![0, 1, 2, 3]);
}

#[test]
fn drawn_orders_are_rearrangements() {
    for seed in 0..20u64 {
        let (slots, cands) = draw_orders(seed, 33, 12);
        assert_eq!(slots.len(), 33);
        assert_eq!(cands.len(), 12);
        assert!(is_rearrangement(&slots));
        assert!(is_rearrangement(&cands));
    }
    assert_eq!(draw_orders(1, 0, 0), (Vec::new(), Vec::new()));
    assert_eq!(draw_orders(1, 1, 1), (vec![0], vec![0]));
}

#[test]
fn drawn_orders_depend_on_the_seed_alone() {
    for seed in [0u64, 1, 42, u64::MAX] {
        assert_eq!(draw_orders(seed, 50, 40), draw_orders(seed, 50, 40));
    }
}

#[test]
fn drawn_orders_are_shuffled() {
    let straight: Vec<usize> = (0..50).collect();
    let mut moved_slots = 0;
    let mut moved_candidates = 0;
    let mut differing = 0;
    for seed in 0..10u64 {
        let (slots, cands) = draw_orders(seed, 50, 50);
        if slots != straight {
            moved_slots += 1;
        }
        if cands != straight {
            moved_candidates += 1;
        }
        if slots != cands {
            differing += 1;
        }
    }
    assert_eq!(moved_slots, 10);
    assert_eq!(moved_candidates, 10);
    assert_eq!(differing, 10);
    assert_ne!(draw_orders(1, 50, 50), draw_orders(2, 50, 50));
}

#[test]
fn slots_are_shuffled_before_candidates() {
    let (slots, _) = draw_orders(42, 30, 30);
    let (slots_alone, none) = draw_orders(42, 30, 0);
    assert_eq!(slots, slots_alone);
    assert_eq!(none, Vec::<usize>::new());
    let (_, cands_after_nothing) = draw_orders(42, 0, 30);
    assert_eq!(cands_after_nothing, slots);
}

#[test]
fn randomize_is_deterministic() {
    let slots = catalog(40);
    let cands = candidates(25);
    for seed in [0u64, 42, 0xDEAD_BEEF] {
        let first = randomize(seed, &cands, &slots);
        let second = randomize(seed, &cands, &slots);
        assert_eq!(first, second);
    }
}

#[test]
fn randomize_is_pairing_in_the_drawn_orders() {
    let slots = catalog(12);
    let cands = candidates(7);
    let (slot_order, candidate_order) = draw_orders(99, 12, 7);
    assert_eq!(randomize(99, &cands, &slots), pair_up(&slot_order, &candidate_order, &slots, &cands));
}

#[test]
fn randomize_serves_as_many_slots_as_there_are_candidates() {
    let slots = catalog(40);
    for n in [0usize, 1, 2, 17, 39] {
        let cands = candidates(n);
        for seed in 0..5u64 {
            let (sounds, subs) = randomize(seed, &cands, &slots);
            let mut served: Vec<(SoundDestination, String)> = Vec::new();
            let mut sources: Vec<String> = Vec::new();
            for group in sounds.into_groups() {
                assert!(!group.files.is_empty());
                for file in group.files {
                    served.push((group.destination.clone(), file.dest_file));
                    sources.push(file.source_file);
                }
            }
            assert_eq!(served.len(), n);
            assert_eq!(subs.len(), n);
            sources.sort();
            sources.dedup();
            assert_eq!(sources.len(), n);
            for slot in &slots {
                let destination = match &slot.package {
                    Some(p) => SoundDestination::Package(p.clone()),
                    None => SoundDestination::Root,
                };
                let hits = served
                    .iter()
                    .filter(|(d, f)| *d == destination && *f == slot.filename)
                    .count();
                assert!(hits <= 1);
                assert_eq!(hits == 1, subs.contains_key(&slot.subtitle));
            }
        }
    }
}

#[test]
fn randomize_with_more_candidates_than_slots_serves_every_slot() {
    let slots = catalog(6);
    let cands = candidates(20);
    let (sounds, subs) = randomize(3, &cands, &slots);
    let total: usize = sounds.into_groups().iter().map(|g| g.files.len()).sum();
    assert_eq!(total, 6);
    assert_eq!(subs.len(), 6);
    for slot in &slots {
        assert!(subs.contains_key(&slot.subtitle));
    }
}

#[test]
fn randomize_maps_each_key_to_its_candidates_caption() {
    let slots = catalog(30);
    let cands = candidates(30);
    let (sounds, subs) = randomize(11, &cands, &slots);
    for group in sounds.into_groups() {
        for file in group.files {
            let slot = slots.iter().find(|s| s.filename == file.dest_file).unwrap();
            let cand = cands.iter().find(|c| c.audio == file.source_file).unwrap();
            assert_eq!(subs.get(&slot.subtitle), Some(&cand.subs));
        }
    }
}

#[test]
fn one_candidate_for_two_slots() {
    let slots =
        vec![slot(None, "a.sound", "k1"), slot(Some("pkg.zip"), "b.sound", "k2")];
    let cands = vec![candidate("x.ogg", Some("x.sub"))];
    let (sounds, subs) = randomize(42, &cands, &slots);
    assert_eq!(sounds.len(), 1);
    assert_eq!(subs.len(), 1);
    let group = sounds.group(0);
    assert_eq!(group.files.len(), 1);
    assert_eq!(group.files[0].source_file, "x.ogg");
    let (chosen, other) = if group.destination == SoundDestination::Root {
        (&slots[0], &slots[1])
    } else {
        assert_eq!(group.destination, SoundDestination::Package("pkg.zip".to_string()));
        (&slots[1], &slots[0])
    };
    assert_eq!(group.files[0].dest_file, chosen.filename);
    assert_eq!(subs.get(&chosen.subtitle), Some(&Some("x.sub".to_string())));
    assert_eq!(subs.get(&other.subtitle), None);
    assert!(!subs.contains_key(&other.subtitle));
}

#[test]
fn seed_forty_two_picks_the_packaged_slot() {
    let slots =
        vec![slot(None, "a.sound", "k1"), slot(Some("pkg.zip"), "b.sound", "k2")];
    let cands = vec![candidate("x.ogg", Some("x.sub"))];
    let (sounds, subs) = randomize(42, &cands, &slots);
    assert_eq!(
        sounds.get(&SoundDestination::Package("pkg.zip".to_string())),
        Some(&vec![insertion("x.ogg", "b.sound")])
    );
    assert_eq!(sounds.get(&SoundDestination::Root), None);
    assert_eq!(subs.get("k2"), Some(&Some("x.sub".to_string())));
    assert_eq!(subs.get("k1"), None);
}

#[test]
fn drawn_orders_for_known_seeds() {
    assert_eq!(draw_orders(42, 2, 1), (vec![1, 0], vec![0]));
    assert_eq!(draw_orders(42, 5, 3), (vec![0, 4, 3, 2, 1], vec![2, 0, 1]));
    assert_eq!(
        draw_orders(0, 8, 8),
        (vec![7, 1, 2, 0, 4, 3, 5, 6], vec![5, 1, 7, 3, 6, 4, 0, 2])
    );
    assert_eq!(draw_orders(7, 10, 4), (vec![5, 7, 9, 6, 3, 8, 2, 1, 0, 4], vec![2, 0, 3, 1]));
}

#[test]
fn one_candidate_for_every_slot() {
    let slots = vec![
        slot(Some("p.pkg"), "a.sound", "k1"),
        slot(None, "b.sound", "k2"),
        slot(Some("p.pkg"), "c.sound", "k3"),
    ];
    let film = candidate("w/film.ogg", Some("film.sub"));
    let (sounds, subs) = give_to_all(&film, &slots);
    assert_eq!(sounds.len(), 2);
    assert_eq!(
        sounds.get(&SoundDestination::Package("p.pkg".to_string())),
        Some(&vec![insertion("w/film.ogg", "a.sound"), insertion("w/film.ogg", "c.sound")])
    );
    assert_eq!(sounds.get(&SoundDestination::Root), Some(&vec![insertion("w/film.ogg", "b.sound")]));
    assert_eq!(subs.len(), 3);
    for key in ["k1", "k2", "k3"] {
        assert_eq!(subs.get(key), Some(&Some("film.sub".to_string())));
    }
    let (sounds, subs) = give_to_all(&film, &Vec::new());
    assert_eq!(sounds.len(), 0);
    assert_eq!(subs.len(), 0);
}
