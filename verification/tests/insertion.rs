use audiolog_randomizer::catalog::AudioLog;
use audiolog_randomizer::insertion::{
    dump_logs, insert_sound_files, insert_sound_loose, insert_sound_packaged, DumpError,
};
use audiolog_randomizer::ops::FileOp;
use audiolog_randomizer::plan::{SoundDestination, SoundInsertion};
use audiolog_randomizer::subtitles::Subtitle;

fn insertion(source: &str, dest: &str) -> SoundInsertion {
    SoundInsertion { source_file: source.to_string(), dest_file: dest.to_string() }
}

fn slot(package: Option<&str>, filename: &str, subtitle: &str) -> AudioLog {
    AudioLog {
        package: package.map(|p| p.to_string()),
        filename: filename.to_string(),
        subtitle: subtitle.to_string(),
    }
}

fn caption(key: &str, val: &str) -> Subtitle {
    Subtitle { key: key.to_string(), val: val.to_string() }
}

fn convert(source: &str, dest: &str) -> FileOp {
    FileOp::OggToSound { source: source.to_string(), dest: dest.to_string() }
}

#[test]
fn loose_insertion_converts_each_file_into_the_asset_root() {
    let files = vec![insertion("in/x.ogg", "a.sound"), insertion("in/y.ogg", "b.sound")];
    assert_eq!(
        insert_sound_loose(files, "w"),
        vec![convert("in/x.ogg", "w/data-pc/a.sound"), convert("in/y.ogg", "w/data-pc/b.sound")]
    );
}

#[test]
fn loose_insertion_of_nothing_does_nothing() {
    assert_eq!(insert_sound_loose(Vec::new(), "w"), Vec::<FileOp>::new());
}

#[test]
fn packaged_insertion_unpacks_replaces_and_repacks() {
    let files = vec![insertion("in/x.ogg", "a.sound"), insertion("in/y.ogg", "b.sound")];
    assert_eq!(
        insert_sound_packaged(files, "globals.pkg".to_string(), "w"),
        vec![
            FileOp::Unpack {
                archive: "w/data-pc/globals.pkg".to_string(),
                dest_dir: "w/tmp/globals".to_string()
            },
            FileOp::RemoveFile { path: "w/tmp/globals/a.sound".to_string() },
            convert("in/x.ogg", "w/tmp/globals/a.sound"),
            FileOp::RemoveFile { path: "w/tmp/globals/b.sound".to_string() },
            convert("in/y.ogg", "w/tmp/globals/b.sound"),
            FileOp::Pack {
                source_dir: "w/tmp/globals".to_string(),
                archive: "w/data-pc/globals.pkg".to_string()
            },
            FileOp::RemoveDirAll { path: "w/tmp/globals".to_string() },
        ]
    );
}

#[test]
fn packaged_insertion_replaces_the_package_only_near_the_end() {
    let files = vec![insertion("in/x.ogg", "a.sound")];
    let ops = insert_sound_packaged(files, "sub/save.pkg".to_string(), "w");
    let writes_package: Vec<usize> = ops
        .iter()
        .enumerate()
        .filter(|(_, op)| matches!(op, FileOp::Pack { archive, .. } if archive == "w/data-pc/sub/save.pkg"))
        .map(|(i, _)| i)
        .collect();
    assert_eq!(writes_package, vec![ops.len() - 2]);
    assert_eq!(
        ops[0],
        FileOp::Unpack {
            archive: "w/data-pc/sub/save.pkg".to_string(),
            dest_dir: "w/tmp/save".to_string()
        }
    );
}

#[test]
fn packaged_insertion_of_nothing_still_repacks() {
    assert_eq!(
        insert_sound_packaged(Vec::new(), "p.pkg".to_string(), "w"),
        vec![
            FileOp::Unpack { archive: "w/data-pc/p.pkg".to_string(), dest_dir: "w/tmp/p".to_string() },
            FileOp::Pack { source_dir: "w/tmp/p".to_string(), archive: "w/data-pc/p.pkg".to_string() },
            FileOp::RemoveDirAll { path: "w/tmp/p".to_string() },
        ]
    );
}

#[test]
fn insertion_goes_by_destination() {
    let files = vec![insertion("in/x.ogg", "a.sound")];
    assert_eq!(
        insert_sound_files(files.clone(), SoundDestination::Root, "w"),
        insert_sound_loose(files.clone(), "w")
    );
    assert_eq!(
        insert_sound_files(files.clone(), SoundDestination::Package("p.pkg".to_string()), "w"),
        insert_sound_packaged(files, "p.pkg".to_string(), "w")
    );
}

#[test]
fn dump_of_a_packaged_slot() {
    let logs = vec![slot(Some("globals.pkg"), "a.sound", "k1")];
    let subs = vec![caption("k1", "Hello")];
    assert_eq!(
        dump_logs("w", "out", &logs, &subs),
        Ok(vec![
            FileOp::ExtractMember {
                archive: "w/data-pc/globals.pkg".to_string(),
                member: "a.sound".to_string(),
                dest_dir: "out".to_string()
            },
            FileOp::SoundToOgg { source: "out/a.sound".to_string(), dest: "out/a.ogg".to_string() },
            FileOp::RemoveFile { path: "out/a.sound".to_string() },
            FileOp::WriteText { path: "out/a.sub".to_string(), text: "Hello".to_string() },
        ])
    );
}

#[test]
fn dump_of_a_loose_slot_keeps_its_name() {
    let logs = vec![slot(None, "b.sound", "k2")];
    let subs = vec![caption("k1", "Hello"), caption("k2", "World")];
    assert_eq!(
        dump_logs("w", "out", &logs, &subs),
        Ok(vec![
            FileOp::SoundToOgg {
                source: "w/data-pc/b.sound".to_string(),
                dest: "out/b.sound".to_string()
            },
            FileOp::WriteText { path: "out/b.sub".to_string(), text: "World".to_string() },
        ])
    );
}

#[test]
fn dump_keeps_catalog_order() {
    let logs = vec![slot(None, "b.sound", "k2"), slot(Some("p.pkg"), "a.sound", "k1")];
    let subs = vec![caption("k1", "one"), caption("k2", "two")];
    let ops = dump_logs("w", "out", &logs, &subs).unwrap();
    assert_eq!(ops.len(), 6);
    assert_eq!(
        ops[1],
        FileOp::WriteText { path: "out/b.sub".to_string(), text: "two".to_string() }
    );
    assert_eq!(
        ops[5],
        FileOp::WriteText { path: "out/a.sub".to_string(), text: "one".to_string() }
    );
}

#[test]
fn dump_uses_the_later_caption_of_a_repeated_key() {
    let logs = vec![slot(None, "b.sound", "k")];
    let subs = vec![caption("k", "first"), caption("k", "second")];
    let ops = dump_logs("w", "out", &logs, &subs).unwrap();
    assert_eq!(
        ops[1],
        FileOp::WriteText { path: "out/b.sub".to_string(), text: "second".to_string() }
    );
}

#[test]
fn dump_fails_on_the_first_slot_without_caption() {
    let logs = vec![
        slot(None, "a.sound", "k1"),
        slot(None, "b.sound", "gone"),
        slot(None, "c.sound", "also gone"),
    ];
    let subs = vec![caption("k1", "Hello")];
    assert_eq!(
        dump_logs("w", "out", &logs, &subs),
        Err(DumpError::MissingSubtitle { key: "gone".to_string() })
    );
}

#[test]
fn dump_of_nothing_does_nothing() {
    assert_eq!(dump_logs("w", "out", &Vec::new(), &Vec::new()), Ok(Vec::new()));
}
