//! Putting planned audio into the installation, and dumping the
//! installation's own audio.

use crate::catalog::{slot_views, AudioLog, Slot};
use crate::ops::{lemma_op_views_push, op_views, FileOp, Op};
use crate::paths::{
    data_dir_name, data_dir_path, file_stem, join, joined, replace_extension, stem_of, tmp_dir_name,
    tmp_dir_path, with_extension,
};
use crate::plan::{insertion_views, Destination, Insertion, SoundDestination, SoundInsertion};
use crate::subtitles::{caption_of, caption_views, find_caption, Caption, Subtitle};
use vstd::prelude::*;

verus! {

/// The commands that insert `files` as loose files of the asset root: one
/// conversion per file, in order.
pub open spec fn loose_ops(files: Seq<Insertion>, witness_dir: Seq<char>) -> Seq<Op> {
    Seq::new(
        files.len(),
        |i: int|
            Op::OggToSound {
                source: files[i].source_file,
                dest: joined(joined(witness_dir, data_dir_name()), files[i].dest_file),
            },
    )
}

/// Where the package `package` lives.
pub open spec fn package_path(witness_dir: Seq<char>, package: Seq<char>) -> Seq<char> {
    joined(joined(witness_dir, data_dir_name()), package)
}

/// Where the package `package` is unpacked while it is patched.
pub open spec fn staging_dir(witness_dir: Seq<char>, package: Seq<char>) -> Seq<char> {
    joined(joined(witness_dir, tmp_dir_name()), file_stem(package))
}

/// The commands that replace members of an unpacked package: for each file
/// in order, the old member is deleted and the new one converted in its
/// place.
pub open spec fn replace_ops(files: Seq<Insertion>, staging: Seq<char>) -> Seq<Op> {
    Seq::new(
        2 * files.len(),
        |k: int|
            if k % 2 == 0 {
                Op::RemoveFile { path: joined(staging, files[k / 2].dest_file) }
            } else {
                Op::OggToSound {
                    source: files[k / 2].source_file,
                    dest: joined(staging, files[k / 2].dest_file),
                }
            },
    )
}

/// The commands that insert `files` into the package `package`: unpack it
/// into its staging directory, replace the members, pack the staging
/// directory over the package, delete the staging directory.
pub open spec fn packaged_ops(
    files: Seq<Insertion>,
    package: Seq<char>,
    witness_dir: Seq<char>,
) -> Seq<Op> {
    let archive = package_path(witness_dir, package);
    let staging = staging_dir(witness_dir, package);
    seq![Op::Unpack { archive: archive, dest_dir: staging }] + replace_ops(files, staging) + seq![
        Op::Pack { source_dir: staging, archive: archive },
        Op::RemoveDirAll { path: staging },
    ]
}

/// The commands that insert `files` at `destination`.
pub open spec fn insertion_ops(
    files: Seq<Insertion>,
    destination: Destination,
    witness_dir: Seq<char>,
) -> Seq<Op> {
    match destination {
        Destination::Package(package) => packaged_ops(files, package, witness_dir),
        Destination::Root => loose_ops(files, witness_dir),
    }
}

/// Plans the insertion of `files` at `destination`.
///
/// The package is replaced only by the last command but one: when an
/// earlier command fails, the package is as it was, and the staging
/// directory may be left behind.
pub fn insert_sound_files(
    files: Vec<SoundInsertion>,
    destination: SoundDestination,
    witness_dir: &str,
) -> (ops: Vec<FileOp>)
    ensures
        op_views(ops@) == insertion_ops(insertion_views(files@), destination@, witness_dir@),
{
    match destination {
        SoundDestination::Package(package) => insert_sound_packaged(files, package, witness_dir),
        SoundDestination::Root => insert_sound_loose(files, witness_dir),
    }
}

/// Plans the insertion of `files` as loose files of the asset root.
pub fn insert_sound_loose(files: Vec<SoundInsertion>, witness_dir: &str) -> (ops: Vec<FileOp>)
    ensures
        op_views(ops@) == loose_ops(insertion_views(files@), witness_dir@),
{
    let root = data_dir_path(witness_dir);
    let mut ops: Vec<FileOp> = Vec::with_capacity(files.len());
    let mut i: usize = 0;
    while i < files.len()
        invariant
            i <= files@.len(),
            root@ == joined(witness_dir@, data_dir_name()),
            op_views(ops@) == loose_ops(insertion_views(files@), witness_dir@).take(i as int),
        decreases files@.len() - i,
    {
        let ghost before = ops@;
        let op = FileOp::OggToSound {
            source: files[i].source_file.clone(),
            dest: join(root.as_str(), files[i].dest_file.as_str()),
        };
        ops.push(op);
        proof {
            lemma_op_views_push(before, op);
        }
        i += 1;
    }
    ops
}

/// Plans the insertion of `files` into the package `dest_pkg`.
pub fn insert_sound_packaged(files: Vec<SoundInsertion>, dest_pkg: String, witness_dir: &str) -> (ops:
    Vec<FileOp>)
    ensures
        op_views(ops@) == packaged_ops(insertion_views(files@), dest_pkg@, witness_dir@),
{
    let root = data_dir_path(witness_dir);
    let archive = join(root.as_str(), dest_pkg.as_str());
    let tmp = tmp_dir_path(witness_dir);
    let stem = stem_of(dest_pkg.as_str());
    let staging = join(tmp.as_str(), stem.as_str());
    let ghost replaced = replace_ops(insertion_views(files@), staging@);
    let ghost first = Op::Unpack { archive: archive@, dest_dir: staging@ };

    let mut ops: Vec<FileOp> = Vec::new();
    let op = FileOp::Unpack { archive: archive.clone(), dest_dir: staging.clone() };
    ops.push(op);
    let mut i: usize = 0;
    while i < files.len()
        invariant
            i <= files@.len(),
            replaced == replace_ops(insertion_views(files@), staging@),
            op_views(ops@) == seq![first] + replaced.take(2 * i),
        decreases files@.len() - i,
    {
        let target = join(staging.as_str(), files[i].dest_file.as_str());
        let ghost before = ops@;
        let remove = FileOp::RemoveFile { path: target.clone() };
        let convert = FileOp::OggToSound { source: files[i].source_file.clone(), dest: target };
        ops.push(remove);
        ops.push(convert);
        proof {
            lemma_op_views_push(before, remove);
            lemma_op_views_push(before.push(remove), convert);
            assert(replaced.take(2 * (i + 1)) =~= replaced.take(2 * i).push(replaced[2 * i]).push(
                replaced[2 * i + 1],
            ));
        }
        i += 1;
    }
    let ghost before = ops@;
    let pack = FileOp::Pack { source_dir: staging.clone(), archive: archive };
    let remove = FileOp::RemoveDirAll { path: staging };
    ops.push(pack);
    ops.push(remove);
    proof {
        lemma_op_views_push(before, pack);
        lemma_op_views_push(before.push(pack), remove);
    }
    ops
}

/// Why a dump cannot be planned.
#[derive(Debug, Clone, PartialEq, Eq)]
pub enum DumpError {
    /// The subtitle database has no caption under this key of the catalog.
    MissingSubtitle { key: String },
}

/// The commands that dump one slot with its caption into `dest_dir`.
///
/// A slot of a package is extracted into `dest_dir`, unwrapped into an
/// audio file beside it, and the extracted container deleted. A loose slot
/// is unwrapped straight into `dest_dir`, under its own name. The caption
/// goes into a file named like the slot, with the caption extension.
pub open spec fn dump_ops_of(
    slot: Slot,
    caption: Seq<char>,
    witness_dir: Seq<char>,
    dest_dir: Seq<char>,
) -> Seq<Op> {
    let root = joined(witness_dir, data_dir_name());
    let dumped = joined(dest_dir, slot.filename);
    let write = Op::WriteText {
        path: joined(dest_dir, with_extension(slot.filename, "sub"@)),
        text: caption,
    };
    match slot.package {
        Some(package) => seq![
            Op::ExtractMember {
                archive: joined(root, package),
                member: slot.filename,
                dest_dir: dest_dir,
            },
            Op::SoundToOgg { source: dumped, dest: with_extension(dumped, "ogg"@) },
            Op::RemoveFile { path: dumped },
            write,
        ],
        None => seq![
            Op::SoundToOgg { source: joined(root, slot.filename), dest: dumped },
            write,
        ],
    }
}

/// Every slot's subtitle key has a caption.
pub open spec fn all_captioned(slots: Seq<Slot>, subs: Seq<Caption>) -> bool {
    forall|i: int| 0 <= i < slots.len() ==> caption_of(subs, (#[trigger] slots[i]).subtitle).is_some()
}

/// The commands that dump `slots` in order.
pub open spec fn dump_ops(
    slots: Seq<Slot>,
    subs: Seq<Caption>,
    witness_dir: Seq<char>,
    dest_dir: Seq<char>,
) -> Seq<Op>
    decreases slots.len(),
{
    if slots.len() == 0 {
        Seq::empty()
    } else {
        dump_ops(slots.drop_last(), subs, witness_dir, dest_dir) + dump_ops_of(
            slots.last(),
            caption_of(subs, slots.last().subtitle).unwrap(),
            witness_dir,
            dest_dir,
        )
    }
}

/// Plans the dump of the installation's audio and captions into
/// `dest_dir`.
///
/// Fails exactly when some slot's subtitle key has no caption in `subs`,
/// and names the key of the first such slot. Where `subs` holds a key
/// twice, the later caption counts.
pub fn dump_logs(witness_dir: &str, dest_dir: &str, logs: &Vec<AudioLog>, subs: &Vec<Subtitle>) -> (r:
    Result<Vec<FileOp>, DumpError>)
    ensures
        match r {
            Ok(ops) => all_captioned(slot_views(logs@), caption_views(subs@)) && op_views(ops@)
                == dump_ops(slot_views(logs@), caption_views(subs@), witness_dir@, dest_dir@),
            Err(DumpError::MissingSubtitle { key }) => exists|i: int|
                0 <= i < logs@.len() && key@ == (#[trigger] logs@[i]).subtitle@ && caption_of(
                    caption_views(subs@),
                    key@,
                ).is_none() && all_captioned(slot_views(logs@).take(i), caption_views(subs@)),
        },
{
    let root = data_dir_path(witness_dir);
    let ghost slots = slot_views(logs@);
    let ghost captions = caption_views(subs@);
    let mut ops: Vec<FileOp> = Vec::new();
    let mut i: usize = 0;
    while i < logs.len()
        invariant
            i <= logs@.len(),
            slots == slot_views(logs@),
            captions == caption_views(subs@),
            root@ == joined(witness_dir@, data_dir_name()),
            all_captioned(slots.take(i as int), captions),
            op_views(ops@) == dump_ops(slots.take(i as int), captions, witness_dir@, dest_dir@),
        decreases logs@.len() - i,
    {
        let log = &logs[i];
        let text = match find_caption(subs, log.subtitle.as_str()) {
            Some(text) => text,
            None => {
                return Err(DumpError::MissingSubtitle { key: log.subtitle.clone() });
            },
        };
        let ghost before = ops@;
        let dumped = join(dest_dir, log.filename.as_str());
        let caption_name = replace_extension(log.filename.as_str(), "sub");
        let write = FileOp::WriteText {
            path: join(dest_dir, caption_name.as_str()),
            text: text.clone(),
        };
        match &log.package {
            Some(package) => {
                let extract = FileOp::ExtractMember {
                    archive: join(root.as_str(), package.as_str()),
                    member: log.filename.clone(),
                    dest_dir: dest_dir.to_owned(),
                };
                let unwrap = FileOp::SoundToOgg {
                    source: dumped.clone(),
                    dest: replace_extension(dumped.as_str(), "ogg"),
                };
                let remove = FileOp::RemoveFile { path: dumped };
                ops.push(extract);
                ops.push(unwrap);
                ops.push(remove);
                ops.push(write);
                proof {
                    lemma_op_views_push(before, extract);
                    lemma_op_views_push(before.push(extract), unwrap);
                    lemma_op_views_push(before.push(extract).push(unwrap), remove);
                    lemma_op_views_push(before.push(extract).push(unwrap).push(remove), write);
                }
            },
            None => {
                let unwrap = FileOp::SoundToOgg {
                    source: join(root.as_str(), log.filename.as_str()),
                    dest: dumped,
                };
                ops.push(unwrap);
                ops.push(write);
                proof {
                    lemma_op_views_push(before, unwrap);
                    lemma_op_views_push(before.push(unwrap), write);
                }
            },
        }
        proof {
            let next = slots.take(i + 1);
            assert(next.drop_last() =~= slots.take(i as int));
        }
        i += 1;
    }
    proof {
        assert(slots.take(logs@.len() as int) =~= slots);
    }
    Ok(ops)
}

/// The path that a command creates, replaces or deletes.
pub open spec fn target(op: Op) -> Seq<char> {
    match op {
        Op::Unpack { archive, dest_dir } => dest_dir,
        Op::Pack { source_dir, archive } => archive,
        Op::ExtractMember { archive, member, dest_dir } => joined(dest_dir, member),
        Op::Rename { from, to } => to,
        Op::Copy { from, to } => to,
        Op::RemoveFile { path } => path,
        Op::RemoveDirAll { path } => path,
        Op::OggToSound { source, dest } => dest,
        Op::SoundToOgg { source, dest } => dest,
        Op::WriteText { path, text } => path,
    }
}

/// `path` starts with the text `dir`.
pub open spec fn starts_with(path: Seq<char>, dir: Seq<char>) -> bool {
    dir.len() <= path.len() && path.take(dir.len() as int) == dir
}

/// A package is replaced by the last command but one of its insertion, the
/// pack command. Every command before that one works on the staging
/// directory or on a path that starts with it; so when one of them fails,
/// the package is as it was.
pub proof fn lemma_package_replaced_last(
    files: Seq<Insertion>,
    package: Seq<char>,
    witness_dir: Seq<char>,
)
    ensures
        ({
            let ops = packaged_ops(files, package, witness_dir);
            let staging = staging_dir(witness_dir, package);
            &&& ops.len() == 2 * files.len() + 3
            &&& ops[ops.len() - 2] == (Op::Pack {
                source_dir: staging,
                archive: package_path(witness_dir, package),
            })
            &&& forall|k: int|
                0 <= k < ops.len() - 2 ==> starts_with(target(#[trigger] ops[k]), staging)
        }),
{
    let ops = packaged_ops(files, package, witness_dir);
    let staging = staging_dir(witness_dir, package);
    assert forall|k: int| 0 <= k < ops.len() - 2 implies starts_with(
        target(#[trigger] ops[k]),
        staging,
    ) by {
        if k == 0 {
            assert(staging.take(staging.len() as int) =~= staging);
        } else {
            let inside = joined(staging, files[(k - 1) / 2].dest_file);
            assert(inside.take(staging.len() as int) =~= staging);
        }
    }
}

} // verus!
