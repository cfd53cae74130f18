use audiolog_randomizer::backup::{
    create_audio_backup, create_subtitles_backup, data_needs_backing_up, data_needs_unpacking,
    inspect, next_step, restore_audio_backup, restore_subtitles_backup, subtitles_need_backing_up,
    unpack_witness_data, witness_dir_is_okay, BackupError, Gate, GateStep, Installation,
    InstallationState,
};
use audiolog_randomizer::ops::FileOp;
use audiolog_randomizer::paths::{
    data_bak_path, data_dir_path, data_zip_path, subs_bak_path, subtitles_path,
};
use std::collections::BTreeMap;

fn nothing() -> Installation {
    Installation {
        data_zip: false,
        data_dir: false,
        data_bak: false,
        subtitles: false,
        subs_bak: false,
    }
}

type Disk = BTreeMap<String, Vec<u8>>;

fn look(dir: &str, disk: &Disk) -> Installation {
    Installation {
        data_zip: disk.contains_key(&data_zip_path(dir)),
        data_dir: disk.contains_key(&data_dir_path(dir)),
        data_bak: disk.contains_key(&data_bak_path(dir)),
        subtitles: disk.contains_key(&subtitles_path(dir)),
        subs_bak: disk.contains_key(&subs_bak_path(dir)),
    }
}

fn perform(op: &FileOp, disk: &mut Disk) {
    match op {
        FileOp::Unpack { archive, dest_dir } => {
            let held = disk.get(archive).unwrap().clone();
            disk.insert(dest_dir.clone(), held);
        }
        FileOp::Rename { from, to } => {
            let held = disk.remove(from).unwrap();
            disk.insert(to.clone(), held);
        }
        FileOp::Copy { from, to } => {
            let held = disk.get(from).unwrap().clone();
            disk.insert(to.clone(), held);
        }
        FileOp::RemoveDirAll { path } => {
            disk.remove(path);
        }
        other => panic!("no backup command: {:?}", other),
    }
}

fn archive_backup_gate(dir: &str, disk: &mut Disk) {
    if let Some(op) = create_audio_backup(dir, &look(dir, disk)) {
        perform(&op, disk);
    }
}

fn all_gates(dir: &str, disk: &mut Disk) -> Vec<Gate> {
    let mut applied = Vec::new();
    let mut last = None;
    while let Some(step) = next_step(last, dir, &look(dir, disk)) {
        if let Some(op) = &step.command {
            perform(op, disk);
        }
        applied.push(step.gate);
        last = Some(step.gate);
    }
    applied
}

fn unpack_command() -> FileOp {
    FileOp::Unpack { archive: "w/data-pc.zip".to_string(), dest_dir: "w/data-pc".to_string() }
}

fn rename_command() -> FileOp {
    FileOp::Rename { from: "w/data-pc.zip".to_string(), to: "w/data-pc.zip.bak".to_string() }
}

fn copy_command() -> FileOp {
    FileOp::Copy {
        from: "w/data\\strings\\en.subtitles".to_string(),
        to: "w/data\\strings\\en.subtitles.bak".to_string(),
    }
}

#[test]
fn directory_is_okay_with_archive_or_assets() {
    assert!(!witness_dir_is_okay(&nothing()));
    assert!(witness_dir_is_okay(&Installation { data_zip: true, ..nothing() }));
    assert!(witness_dir_is_okay(&Installation { data_dir: true, ..nothing() }));
    assert!(witness_dir_is_okay(&Installation { data_zip: true, data_dir: true, ..nothing() }));
    assert!(!witness_dir_is_okay(&Installation {
        data_bak: true,
        subtitles: true,
        subs_bak: true,
        ..nothing()
    }));
}

#[test]
fn unpack_gate_truth_table() {
    for zip in [false, true] {
        for dir in [false, true] {
            let found = Installation { data_zip: zip, data_dir: dir, ..nothing() };
            assert_eq!(data_needs_unpacking(&found), zip && !dir);
        }
    }
}

#[test]
fn archive_backup_gate_truth_table() {
    for zip in [false, true] {
        for bak in [false, true] {
            let found = Installation { data_zip: zip, data_bak: bak, ..nothing() };
            assert_eq!(data_needs_backing_up(&found), zip && !bak);
        }
    }
}

#[test]
fn caption_backup_gate_truth_table() {
    for subs in [false, true] {
        for bak in [false, true] {
            let found = Installation { subtitles: subs, subs_bak: bak, ..nothing() };
            assert_eq!(subtitles_need_backing_up(&found), subs && !bak);
        }
    }
}

#[test]
fn inspect_reports_all_three_gates() {
    let fresh = Installation { data_zip: true, subtitles: true, ..nothing() };
    assert_eq!(
        inspect(&fresh),
        InstallationState {
            needs_unpack: true,
            needs_archive_backup: true,
            needs_caption_backup: true
        }
    );
    let settled = Installation {
        data_zip: false,
        data_dir: true,
        data_bak: true,
        subtitles: true,
        subs_bak: true,
    };
    assert_eq!(
        inspect(&settled),
        InstallationState {
            needs_unpack: false,
            needs_archive_backup: false,
            needs_caption_backup: false
        }
    );
    assert_eq!(
        inspect(&nothing()),
        InstallationState {
            needs_unpack: false,
            needs_archive_backup: false,
            needs_caption_backup: false
        }
    );
}

#[test]
fn unpack_command_only_without_asset_directory() {
    for zip in [false, true] {
        for dir in [false, true] {
            let found = Installation { data_zip: zip, data_dir: dir, ..nothing() };
            let expected = if zip && !dir { Some(unpack_command()) } else { None };
            assert_eq!(unpack_witness_data("w", &found), expected);
            assert_eq!(unpack_witness_data("w", &found).is_some(), data_needs_unpacking(&found));
        }
    }
}

#[test]
fn archive_backup_is_a_move_made_once() {
    for zip in [false, true] {
        for bak in [false, true] {
            let found = Installation { data_zip: zip, data_bak: bak, data_dir: true, ..nothing() };
            let expected = if zip && !bak { Some(rename_command()) } else { None };
            assert_eq!(create_audio_backup("w", &found), expected);
            assert_eq!(create_audio_backup("w", &found).is_some(), data_needs_backing_up(&found));
        }
    }
}

#[test]
fn caption_backup_is_a_copy_made_once() {
    for subs in [false, true] {
        for bak in [false, true] {
            let found = Installation { subtitles: subs, subs_bak: bak, ..nothing() };
            let expected = if subs && !bak { Some(copy_command()) } else { None };
            assert_eq!(create_subtitles_backup("w", &found), expected);
            assert_eq!(
                create_subtitles_backup("w", &found).is_some(),
                subtitles_need_backing_up(&found)
            );
        }
    }
}

#[test]
fn steps_follow_the_order_of_the_gates() {
    let fresh = Installation { data_zip: true, subtitles: true, ..nothing() };
    assert_eq!(
        next_step(None, "w", &fresh),
        Some(GateStep { gate: Gate::Unpack, command: Some(unpack_command()) })
    );
    assert_eq!(
        next_step(Some(Gate::Unpack), "w", &fresh),
        Some(GateStep { gate: Gate::ArchiveBackup, command: Some(rename_command()) })
    );
    assert_eq!(
        next_step(Some(Gate::ArchiveBackup), "w", &fresh),
        Some(GateStep { gate: Gate::CaptionBackup, command: Some(copy_command()) })
    );
    assert_eq!(next_step(Some(Gate::CaptionBackup), "w", &fresh), None);
}

#[test]
fn steps_of_a_settled_installation_issue_no_command() {
    let settled = Installation {
        data_zip: false,
        data_dir: true,
        data_bak: true,
        subtitles: true,
        subs_bak: true,
    };
    assert_eq!(
        next_step(None, "w", &settled),
        Some(GateStep { gate: Gate::Unpack, command: None })
    );
    assert_eq!(
        next_step(Some(Gate::Unpack), "w", &settled),
        Some(GateStep { gate: Gate::ArchiveBackup, command: None })
    );
    assert_eq!(
        next_step(Some(Gate::ArchiveBackup), "w", &settled),
        Some(GateStep { gate: Gate::CaptionBackup, command: None })
    );
    assert_eq!(next_step(Some(Gate::CaptionBackup), "w", &settled), None);
}

#[test]
fn archive_restored_beside_a_backup_leaves_the_backup_alone() {
    let mut disk = Disk::new();
    disk.insert(data_zip_path("w"), b"put back by an updater".to_vec());
    disk.insert(data_bak_path("w"), b"pristine".to_vec());
    disk.insert(data_dir_path("w"), b"randomized".to_vec());
    assert_eq!(create_audio_backup("w", &look("w", &disk)), None);
    let before = disk.clone();
    assert_eq!(all_gates("w", &mut disk), vec![Gate::Unpack, Gate::ArchiveBackup, Gate::CaptionBackup]);
    assert_eq!(disk, before);
    assert_eq!(disk.get(&data_bak_path("w")), Some(&b"pristine".to_vec()));
}

#[test]
fn unpack_gate_leaves_an_asset_directory_alone() {
    let mut disk = Disk::new();
    disk.insert(data_zip_path("w"), b"packed".to_vec());
    disk.insert(data_dir_path("w"), b"randomized".to_vec());
    assert_eq!(unpack_witness_data("w", &look("w", &disk)), None);
    all_gates("w", &mut disk);
    assert_eq!(disk.get(&data_dir_path("w")), Some(&b"randomized".to_vec()));
    assert_eq!(disk.get(&data_bak_path("w")), Some(&b"packed".to_vec()));
}

#[test]
fn caption_gate_needs_the_caption_file() {
    let mut disk = Disk::new();
    disk.insert(data_dir_path("w"), b"assets".to_vec());
    let before = disk.clone();
    all_gates("w", &mut disk);
    assert_eq!(disk, before);
}

#[test]
fn restore_without_backup_fails() {
    let found = Installation { data_zip: true, data_dir: true, ..nothing() };
    assert_eq!(restore_audio_backup("w", &found), Err(BackupError::BackupMissing));
    assert_eq!(restore_audio_backup("w", &nothing()), Err(BackupError::BackupMissing));
}

#[test]
fn restore_deletes_assets_then_unpacks_backup() {
    let found = Installation { data_dir: true, data_bak: true, ..nothing() };
    assert_eq!(
        restore_audio_backup("w", &found),
        Ok(vec![
            FileOp::RemoveDirAll { path: "w/data-pc".to_string() },
            FileOp::Unpack {
                archive: "w/data-pc.zip.bak".to_string(),
                dest_dir: "w/data-pc".to_string()
            },
        ])
    );
}

#[test]
fn restore_without_assets_only_unpacks() {
    let found = Installation { data_bak: true, ..nothing() };
    assert_eq!(
        restore_audio_backup("w", &found),
        Ok(vec![FileOp::Unpack {
            archive: "w/data-pc.zip.bak".to_string(),
            dest_dir: "w/data-pc".to_string()
        }])
    );
}

#[test]
fn caption_restore_copies_backup_over_live_file() {
    assert_eq!(
        restore_subtitles_backup("w"),
        FileOp::Copy {
            from: "w/data\\strings\\en.subtitles.bak".to_string(),
            to: "w/data\\strings\\en.subtitles".to_string()
        }
    );
}

#[test]
fn archive_backup_gate_twice_leaves_one_backup() {
    let mut disk = Disk::new();
    disk.insert(data_zip_path("w"), b"pristine".to_vec());
    archive_backup_gate("w", &mut disk);
    let once = disk.clone();
    archive_backup_gate("w", &mut disk);
    assert_eq!(disk, once);
    assert_eq!(disk.get(&data_bak_path("w")), Some(&b"pristine".to_vec()));
    assert!(!disk.contains_key(&data_zip_path("w")));
    assert_eq!(disk.len(), 1);
}

#[test]
fn archive_backup_gate_never_overwrites_a_backup() {
    let mut disk = Disk::new();
    disk.insert(data_zip_path("w"), b"changed".to_vec());
    disk.insert(data_bak_path("w"), b"pristine".to_vec());
    archive_backup_gate("w", &mut disk);
    assert_eq!(disk.get(&data_bak_path("w")), Some(&b"pristine".to_vec()));
    assert_eq!(disk.get(&data_zip_path("w")), Some(&b"changed".to_vec()));
}

#[test]
fn gates_in_order_settle_a_fresh_installation() {
    let mut disk = Disk::new();
    disk.insert(data_zip_path("w"), b"assets".to_vec());
    disk.insert(subtitles_path("w"), b"captions".to_vec());
    all_gates("w", &mut disk);
    assert_eq!(disk.get(&data_dir_path("w")), Some(&b"assets".to_vec()));
    assert_eq!(disk.get(&data_bak_path("w")), Some(&b"assets".to_vec()));
    assert!(!disk.contains_key(&data_zip_path("w")));
    assert_eq!(disk.get(&subtitles_path("w")), Some(&b"captions".to_vec()));
    assert_eq!(disk.get(&subs_bak_path("w")), Some(&b"captions".to_vec()));
    let settled = disk.clone();
    all_gates("w", &mut disk);
    assert_eq!(disk, settled);
    assert!(witness_dir_is_okay(&look("w", &disk)));
}

#[test]
fn restore_is_repeatable() {
    let mut disk = Disk::new();
    disk.insert(data_bak_path("w"), b"pristine".to_vec());
    disk.insert(data_dir_path("w"), b"randomized".to_vec());
    for _ in 0..2 {
        let ops = restore_audio_backup("w", &look("w", &disk)).unwrap();
        for op in &ops {
            perform(op, &mut disk);
        }
        assert_eq!(disk.get(&data_dir_path("w")), Some(&b"pristine".to_vec()));
        assert_eq!(disk.get(&data_bak_path("w")), Some(&b"pristine".to_vec()));
    }
}
