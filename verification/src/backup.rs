//! Backing up the installation's pristine data, once, and restoring it.
//!
//! Three gates guard the installation. Each looks at which files exist and
//! acts at most once per installation: the packed asset archive is unpacked
//! into the asset directory, the packed archive is moved to its backup
//! name, and the caption database is copied to its backup name. A gate
//! issues its command only when what it guards exists and what it would
//! create does not; so a backup is never overwritten by data that was
//! already changed. [`next_step`] takes the gates in their order.

use crate::ops::{FileOp, Op};
use crate::paths::{
    data_bak_name, data_bak_path, data_dir_name, data_dir_path, data_zip_name, data_zip_path,
    joined, subs_bak_name, subs_bak_path, subtitles_name, subtitles_path,
};
use vstd::prelude::*;

verus! {

/// Which of the installation's files exist at the moment.
#[derive(Debug, Clone, Copy, PartialEq, Eq, Structural)]
pub struct Installation {
    /// The packed asset archive.
    pub data_zip: bool,
    /// The unpacked asset directory.
    pub data_dir: bool,
    /// The backup of the packed asset archive.
    pub data_bak: bool,
    /// The caption database.
    pub subtitles: bool,
    /// The backup of the caption database.
    pub subs_bak: bool,
}

/// Which gates have work to do.
#[derive(Debug, Clone, Copy, PartialEq, Eq, Structural)]
pub struct InstallationState {
    pub needs_unpack: bool,
    pub needs_archive_backup: bool,
    pub needs_caption_backup: bool,
}

/// Why a restore cannot start.
#[derive(Debug, Clone, Copy, PartialEq, Eq, Structural)]
pub enum BackupError {
    /// The backup of the packed asset archive does not exist.
    BackupMissing,
}

/// One of the three gates, in the order in which they are applied.
#[derive(Debug, Clone, Copy, PartialEq, Eq, Structural)]
pub enum Gate {
    /// Unpack the packed asset archive, unless the asset directory exists.
    Unpack,
    /// Move the packed asset archive to its backup name, unless a backup
    /// exists.
    ArchiveBackup,
    /// Copy the caption database to its backup name, unless a backup
    /// exists.
    CaptionBackup,
}

/// What the host does next when it attaches to an installation: which gate
/// has its turn, and the command that this gate issues for what was
/// found, if it issues one.
#[derive(Debug, Clone, PartialEq, Eq)]
pub struct GateStep {
    pub gate: Gate,
    pub command: Option<FileOp>,
}

/// Whether the directory looks like an installation: it holds the packed
/// asset archive or the unpacked asset directory.
pub fn witness_dir_is_okay(found: &Installation) -> (r: bool)
    ensures
        r == (found.data_zip || found.data_dir),
{
    found.data_zip || found.data_dir
}

/// Whether the packed asset archive is there and has not been unpacked.
pub fn data_needs_unpacking(found: &Installation) -> (r: bool)
    ensures
        r == gate_open(Gate::Unpack, *found),
{
    found.data_zip && !found.data_dir
}

/// Whether the packed asset archive is there and has no backup.
pub fn data_needs_backing_up(found: &Installation) -> (r: bool)
    ensures
        r == gate_open(Gate::ArchiveBackup, *found),
{
    found.data_zip && !found.data_bak
}

/// Whether the caption database is there and has no backup.
pub fn subtitles_need_backing_up(found: &Installation) -> (r: bool)
    ensures
        r == gate_open(Gate::CaptionBackup, *found),
{
    found.subtitles && !found.subs_bak
}

/// The state of the three gates, computed from what exists now.
pub fn inspect(found: &Installation) -> (state: InstallationState)
    ensures
        state.needs_unpack == gate_open(Gate::Unpack, *found),
        state.needs_archive_backup == gate_open(Gate::ArchiveBackup, *found),
        state.needs_caption_backup == gate_open(Gate::CaptionBackup, *found),
{
    InstallationState {
        needs_unpack: data_needs_unpacking(found),
        needs_archive_backup: data_needs_backing_up(found),
        needs_caption_backup: subtitles_need_backing_up(found),
    }
}

/// The command of the unpack gate.
pub open spec fn unpack_op(witness_dir: Seq<char>) -> Op {
    Op::Unpack {
        archive: joined(witness_dir, data_zip_name()),
        dest_dir: joined(witness_dir, data_dir_name()),
    }
}

/// The command of the archive-backup gate.
pub open spec fn archive_backup_op(witness_dir: Seq<char>) -> Op {
    Op::Rename {
        from: joined(witness_dir, data_zip_name()),
        to: joined(witness_dir, data_bak_name()),
    }
}

/// The command of the caption-backup gate.
pub open spec fn caption_backup_op(witness_dir: Seq<char>) -> Op {
    Op::Copy {
        from: joined(witness_dir, subtitles_name()),
        to: joined(witness_dir, subs_bak_name()),
    }
}

/// The command that puts the backed-up captions back.
pub open spec fn caption_restore_op(witness_dir: Seq<char>) -> Op {
    Op::Copy {
        from: joined(witness_dir, subs_bak_name()),
        to: joined(witness_dir, subtitles_name()),
    }
}

/// The commands that put the backed-up assets back: the asset directory is
/// deleted if it exists, then the backup is unpacked in its place.
pub open spec fn archive_restore_ops(witness_dir: Seq<char>, found: Installation) -> Seq<Op> {
    let unpack = Op::Unpack {
        archive: joined(witness_dir, data_bak_name()),
        dest_dir: joined(witness_dir, data_dir_name()),
    };
    if found.data_dir {
        seq![Op::RemoveDirAll { path: joined(witness_dir, data_dir_name()) }, unpack]
    } else {
        seq![unpack]
    }
}

/// Whether a gate has something to do: what it guards exists, and what
/// it would create does not.
pub open spec fn gate_open(gate: Gate, found: Installation) -> bool {
    match gate {
        Gate::Unpack => found.data_zip && !found.data_dir,
        Gate::ArchiveBackup => found.data_zip && !found.data_bak,
        Gate::CaptionBackup => found.subtitles && !found.subs_bak,
    }
}

/// The command that a gate issues when it is open.
pub open spec fn gate_op(gate: Gate, witness_dir: Seq<char>) -> Op {
    match gate {
        Gate::Unpack => unpack_op(witness_dir),
        Gate::ArchiveBackup => archive_backup_op(witness_dir),
        Gate::CaptionBackup => caption_backup_op(witness_dir),
    }
}

/// What a gate issues for what was found: its command when it is open,
/// nothing when it is closed.
pub open spec fn gate_command(gate: Gate, witness_dir: Seq<char>, found: Installation) -> Option<
    Op,
> {
    if gate_open(gate, found) {
        Some(gate_op(gate, witness_dir))
    } else {
        None
    }
}

/// Which gate has its turn after `last`: the first one when none was
/// applied yet, none after the last one.
pub open spec fn gate_after(last: Option<Gate>) -> Option<Gate> {
    match last {
        None => Some(Gate::Unpack),
        Some(Gate::Unpack) => Some(Gate::ArchiveBackup),
        Some(Gate::ArchiveBackup) => Some(Gate::CaptionBackup),
        Some(Gate::CaptionBackup) => None,
    }
}

/// The value of a command that may be missing.
pub open spec fn command_view(command: Option<FileOp>) -> Option<Op> {
    match command {
        Some(op) => Some(op@),
        None => None,
    }
}

/// The unpack gate: the command that unpacks the packed asset archive into
/// the asset directory, exactly when the archive exists and the directory
/// does not. The packed archive stays where it is.
pub fn unpack_witness_data(witness_dir: &str, found: &Installation) -> (op: Option<FileOp>)
    ensures
        command_view(op) == gate_command(Gate::Unpack, witness_dir@, *found),
{
    if found.data_zip && !found.data_dir {
        Some(
            FileOp::Unpack {
                archive: data_zip_path(witness_dir),
                dest_dir: data_dir_path(witness_dir),
            },
        )
    } else {
        None
    }
}

/// The archive-backup gate: the command that moves the packed asset
/// archive to its backup name, exactly when the archive exists and no
/// backup does. A backup that exists is never replaced.
pub fn create_audio_backup(witness_dir: &str, found: &Installation) -> (op: Option<FileOp>)
    ensures
        command_view(op) == gate_command(Gate::ArchiveBackup, witness_dir@, *found),
{
    if found.data_zip && !found.data_bak {
        Some(FileOp::Rename { from: data_zip_path(witness_dir), to: data_bak_path(witness_dir) })
    } else {
        None
    }
}

/// The caption-backup gate: the command that copies the caption database
/// to its backup name, exactly when the database exists and no backup
/// does.
pub fn create_subtitles_backup(witness_dir: &str, found: &Installation) -> (op: Option<FileOp>)
    ensures
        command_view(op) == gate_command(Gate::CaptionBackup, witness_dir@, *found),
{
    if found.subtitles && !found.subs_bak {
        Some(FileOp::Copy { from: subtitles_path(witness_dir), to: subs_bak_path(witness_dir) })
    } else {
        None
    }
}

/// The next step of attaching to an installation.
///
/// The gates take their turns in a fixed order: unpack, archive backup,
/// caption backup. `last` names what was applied last, `found` is what
/// exists now, looked up afresh after that gate's command was carried out.
/// The step says which gate has its turn and which command it issues;
/// there is no step once the caption-backup gate was applied.
pub fn next_step(last: Option<Gate>, witness_dir: &str, found: &Installation) -> (step: Option<
    GateStep,
>)
    ensures
        match step {
            Some(s) => gate_after(last) == Some(s.gate) && command_view(s.command) == gate_command(
                s.gate,
                witness_dir@,
                *found,
            ),
            None => gate_after(last).is_none(),
        },
{
    match last {
        None => Some(
            GateStep { gate: Gate::Unpack, command: unpack_witness_data(witness_dir, found) },
        ),
        Some(Gate::Unpack) => Some(
            GateStep { gate: Gate::ArchiveBackup, command: create_audio_backup(witness_dir, found) },
        ),
        Some(Gate::ArchiveBackup) => Some(
            GateStep {
                gate: Gate::CaptionBackup,
                command: create_subtitles_backup(witness_dir, found),
            },
        ),
        Some(Gate::CaptionBackup) => None,
    }
}

/// Plans the restore of the assets from their backup.
///
/// Fails with [`BackupError::BackupMissing`] exactly when the backup does
/// not exist. The backup itself is never touched, so a restore can be
/// repeated.
pub fn restore_audio_backup(witness_dir: &str, found: &Installation) -> (r: Result<
    Vec<FileOp>,
    BackupError,
>)
    ensures
        !found.data_bak ==> r == Err::<Vec<FileOp>, BackupError>(BackupError::BackupMissing),
        found.data_bak ==> (r matches Ok(ops) && crate::ops::op_views(ops@) == archive_restore_ops(
            witness_dir@,
            *found,
        )),
{
    if !found.data_bak {
        return Err(BackupError::BackupMissing);
    }
    let mut ops: Vec<FileOp> = Vec::new();
    if found.data_dir {
        ops.push(FileOp::RemoveDirAll { path: data_dir_path(witness_dir) });
    }
    ops.push(
        FileOp::Unpack { archive: data_bak_path(witness_dir), dest_dir: data_dir_path(witness_dir) },
    );
    Ok(ops)
}

/// The command that copies the backup of the caption database over the
/// live one.
pub fn restore_subtitles_backup(witness_dir: &str) -> (op: FileOp)
    ensures
        op@ == caption_restore_op(witness_dir@),
{
    FileOp::Copy { from: subs_bak_path(witness_dir), to: subtitles_path(witness_dir) }
}

/// A disk, as far as backup and restore are concerned: the paths that
/// exist, each with what it holds. An unpacked directory holds what the
/// archive held that it was unpacked from.
pub type Disk = Map<Seq<char>, Seq<u8>>;

/// What `found` is on `disk` for the installation at `witness_dir`.
pub open spec fn seen(witness_dir: Seq<char>, disk: Disk) -> Installation {
    Installation {
        data_zip: disk.dom().contains(joined(witness_dir, data_zip_name())),
        data_dir: disk.dom().contains(joined(witness_dir, data_dir_name())),
        data_bak: disk.dom().contains(joined(witness_dir, data_bak_name())),
        subtitles: disk.dom().contains(joined(witness_dir, subtitles_name())),
        subs_bak: disk.dom().contains(joined(witness_dir, subs_bak_name())),
    }
}

/// The disk after the host has carried out `op` with success. Only the
/// commands of backup and restore are described; a command whose source is
/// missing fails and changes nothing.
pub open spec fn after(op: Op, disk: Disk) -> Disk {
    match op {
        Op::Unpack { archive, dest_dir } => if disk.dom().contains(archive) {
            disk.insert(dest_dir, disk[archive])
        } else {
            disk
        },
        Op::Rename { from, to } => if disk.dom().contains(from) {
            disk.remove(from).insert(to, disk[from])
        } else {
            disk
        },
        Op::Copy { from, to } => if disk.dom().contains(from) {
            disk.insert(to, disk[from])
        } else {
            disk
        },
        Op::RemoveDirAll { path } => disk.remove(path),
        Op::RemoveFile { path } => disk.remove(path),
        _ => disk,
    }
}

/// The disk after the host has carried out `ops` in order.
pub open spec fn after_all(ops: Seq<Op>, disk: Disk) -> Disk
    decreases ops.len(),
{
    if ops.len() == 0 {
        disk
    } else {
        after(ops.last(), after_all(ops.drop_last(), disk))
    }
}

/// The disk after a gate was applied: after its command was carried out,
/// if it issued one for what is on the disk.
pub open spec fn through_gate(gate: Gate, witness_dir: Seq<char>, disk: Disk) -> Disk {
    match gate_command(gate, witness_dir, seen(witness_dir, disk)) {
        Some(op) => after(op, disk),
        None => disk,
    }
}

/// The disk after the unpack gate was applied.
pub open spec fn unpack_gate(witness_dir: Seq<char>, disk: Disk) -> Disk {
    through_gate(Gate::Unpack, witness_dir, disk)
}

/// The disk after the archive-backup gate was applied.
pub open spec fn archive_backup_gate(witness_dir: Seq<char>, disk: Disk) -> Disk {
    through_gate(Gate::ArchiveBackup, witness_dir, disk)
}

/// The disk after the caption-backup gate was applied.
pub open spec fn caption_backup_gate(witness_dir: Seq<char>, disk: Disk) -> Disk {
    through_gate(Gate::CaptionBackup, witness_dir, disk)
}

/// How many gates have their turn after `last`.
pub open spec fn gates_left(last: Option<Gate>) -> nat {
    match last {
        None => 3,
        Some(Gate::Unpack) => 2,
        Some(Gate::ArchiveBackup) => 1,
        Some(Gate::CaptionBackup) => 0,
    }
}

/// The disk after the host has taken every step that follows `last`, each
/// on a fresh look at the disk.
pub open spec fn attached_from(last: Option<Gate>, witness_dir: Seq<char>, disk: Disk) -> Disk
    decreases gates_left(last),
{
    match gate_after(last) {
        Some(gate) => attached_from(Some(gate), witness_dir, through_gate(gate, witness_dir, disk)),
        None => disk,
    }
}

/// Two names of different lengths give different paths under one
/// directory.
pub proof fn lemma_joined_differ(base: Seq<char>, a: Seq<char>, b: Seq<char>)
    requires
        a.len() != b.len(),
    ensures
        joined(base, a) != joined(base, b),
{
    assert(joined(base, a).len() != joined(base, b).len());
}

/// Applying the archive-backup gate a second time changes nothing: there is
/// one backup, and it is the one that the first application left. A backup
/// that existed before the first application is kept as it was; otherwise
/// the backup holds what the packed archive held, and the packed archive is
/// gone.
pub proof fn lemma_archive_backup_idempotent(witness_dir: Seq<char>, disk: Disk)
    ensures
        archive_backup_gate(witness_dir, archive_backup_gate(witness_dir, disk))
            == archive_backup_gate(witness_dir, disk),
        !seen(witness_dir, archive_backup_gate(witness_dir, disk)).data_zip || seen(
            witness_dir,
            archive_backup_gate(witness_dir, disk),
        ).data_bak,
        seen(witness_dir, disk).data_bak ==> archive_backup_gate(witness_dir, disk) == disk,
        seen(witness_dir, disk).data_zip && !seen(witness_dir, disk).data_bak ==> {
            let once = archive_backup_gate(witness_dir, disk);
            &&& seen(witness_dir, once).data_bak
            &&& !seen(witness_dir, once).data_zip
            &&& once[joined(witness_dir, data_bak_name())] == disk[joined(
                witness_dir,
                data_zip_name(),
            )]
        },
{
}

/// A caption backup that exists is kept as it was.
pub proof fn lemma_caption_backup_kept(witness_dir: Seq<char>, disk: Disk)
    ensures
        seen(witness_dir, disk).subs_bak ==> caption_backup_gate(witness_dir, disk) == disk,
{
}

/// A restore of the assets leaves the backup as it was and the asset
/// directory holding what the backup holds; so it can be repeated.
pub proof fn lemma_restore_keeps_backup(witness_dir: Seq<char>, disk: Disk)
    requires
        seen(witness_dir, disk).data_bak,
    ensures
        ({
            let bak = joined(witness_dir, data_bak_name());
            let dir = joined(witness_dir, data_dir_name());
            let restored = after_all(archive_restore_ops(witness_dir, seen(witness_dir, disk)), disk);
            &&& restored.dom().contains(bak)
            &&& restored[bak] == disk[bak]
            &&& restored.dom().contains(dir)
            &&& restored[dir] == disk[bak]
        }),
{
    reveal_strlit("data-pc");
    reveal_strlit("data-pc.zip.bak");
    lemma_joined_differ(witness_dir, data_dir_name(), data_bak_name());
    let found = seen(witness_dir, disk);
    reveal_with_fuel(after_all, 3);
}

/// The disk after the host has attached to the installation: after every
/// step from the first on.
pub open spec fn all_gates(witness_dir: Seq<char>, disk: Disk) -> Disk {
    attached_from(None, witness_dir, disk)
}

/// Attaching applies the three gates in their order: unpack, archive
/// backup, caption backup.
pub proof fn lemma_gate_order(witness_dir: Seq<char>, disk: Disk)
    ensures
        all_gates(witness_dir, disk) == caption_backup_gate(
            witness_dir,
            archive_backup_gate(witness_dir, unpack_gate(witness_dir, disk)),
        ),
{
    reveal_with_fuel(attached_from, 4);
}

/// Applying any gate a second time changes nothing.
pub proof fn lemma_gate_idempotent(gate: Gate, witness_dir: Seq<char>, disk: Disk)
    ensures
        through_gate(gate, witness_dir, through_gate(gate, witness_dir, disk)) == through_gate(
            gate,
            witness_dir,
            disk,
        ),
{
}

/// Once the host has attached, no gate has anything left to do; an
/// installation that was found is found still, with its assets unpacked;
/// and a backup that existed before holds what it held.
pub proof fn lemma_gates_settle(witness_dir: Seq<char>, disk: Disk)
    ensures
        ({
            let attached = all_gates(witness_dir, disk);
            let settled = seen(witness_dir, attached);
            let data_bak = joined(witness_dir, data_bak_name());
            let subs_bak = joined(witness_dir, subs_bak_name());
            &&& forall|gate: Gate| !gate_open(gate, settled)
            &&& seen(witness_dir, disk).data_zip || seen(witness_dir, disk).data_dir
                ==> settled.data_dir
            &&& seen(witness_dir, disk).data_bak ==> settled.data_bak && attached[data_bak]
                == disk[data_bak]
            &&& seen(witness_dir, disk).subs_bak ==> settled.subs_bak && attached[subs_bak]
                == disk[subs_bak]
        }),
{
    lemma_gate_order(witness_dir, disk);
    reveal_strlit("data-pc");
    reveal_strlit("data-pc.zip");
    reveal_strlit("data-pc.zip.bak");
    reveal_strlit("data\\strings\\en.subtitles");
    reveal_strlit("data\\strings\\en.subtitles.bak");
    lemma_joined_differ(witness_dir, data_dir_name(), data_zip_name());
    lemma_joined_differ(witness_dir, data_dir_name(), data_bak_name());
    lemma_joined_differ(witness_dir, data_zip_name(), data_bak_name());
    lemma_joined_differ(witness_dir, subs_bak_name(), data_zip_name());
    lemma_joined_differ(witness_dir, subs_bak_name(), data_dir_name());
    lemma_joined_differ(witness_dir, subs_bak_name(), data_bak_name());
    lemma_joined_differ(witness_dir, subs_bak_name(), subtitles_name());
}

} // verus!
