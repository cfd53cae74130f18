//! The commands that the library hands to its host.
//!
//! The library never touches the disk. An operation that changes the
//! installation returns a list of commands; the host carries them out in
//! order and stops at the first one that fails.

use vstd::prelude::*;

verus! {

/// One change to the file system.
#[derive(Debug, Clone, PartialEq, Eq)]
pub enum FileOp {
    /// Extract every entry of the archive at `archive` into the directory
    /// `dest_dir`.
    Unpack { archive: String, dest_dir: String },
    /// Write the directory tree under `source_dir` into a new archive at
    /// `archive`.
    Pack { source_dir: String, archive: String },
    /// Extract from the archive at `archive` the entries stored under the
    /// name `member` into the directory `dest_dir`. Nothing happens when
    /// the archive has no such entry.
    ExtractMember { archive: String, member: String, dest_dir: String },
    /// Move the file at `from` to `to`.
    Rename { from: String, to: String },
    /// Copy the file at `from` to `to`, replacing what is there.
    Copy { from: String, to: String },
    /// Delete the file at `path`.
    RemoveFile { path: String },
    /// Delete the directory at `path` with all it holds.
    RemoveDirAll { path: String },
    /// Wrap the audio file at `source` in a sound container at `dest`.
    OggToSound { source: String, dest: String },
    /// Unwrap the sound container at `source` into an audio file at `dest`.
    SoundToOgg { source: String, dest: String },
    /// Write `text` to a new file at `path`.
    WriteText { path: String, text: String },
}

/// The mathematical value of a [`FileOp`].
pub enum Op {
    Unpack { archive: Seq<char>, dest_dir: Seq<char> },
    Pack { source_dir: Seq<char>, archive: Seq<char> },
    ExtractMember { archive: Seq<char>, member: Seq<char>, dest_dir: Seq<char> },
    Rename { from: Seq<char>, to: Seq<char> },
    Copy { from: Seq<char>, to: Seq<char> },
    RemoveFile { path: Seq<char> },
    RemoveDirAll { path: Seq<char> },
    OggToSound { source: Seq<char>, dest: Seq<char> },
    SoundToOgg { source: Seq<char>, dest: Seq<char> },
    WriteText { path: Seq<char>, text: Seq<char> },
}

impl View for FileOp {
    type V = Op;

    open spec fn view(&self) -> Op {
        match self {
            FileOp::Unpack { archive, dest_dir } => Op::Unpack {
                archive: archive@,
                dest_dir: dest_dir@,
            },
            FileOp::Pack { source_dir, archive } => Op::Pack {
                source_dir: source_dir@,
                archive: archive@,
            },
            FileOp::ExtractMember { archive, member, dest_dir } => Op::ExtractMember {
                archive: archive@,
                member: member@,
                dest_dir: dest_dir@,
            },
            FileOp::Rename { from, to } => Op::Rename { from: from@, to: to@ },
            FileOp::Copy { from, to } => Op::Copy { from: from@, to: to@ },
            FileOp::RemoveFile { path } => Op::RemoveFile { path: path@ },
            FileOp::RemoveDirAll { path } => Op::RemoveDirAll { path: path@ },
            FileOp::OggToSound { source, dest } => Op::OggToSound { source: source@, dest: dest@ },
            FileOp::SoundToOgg { source, dest } => Op::SoundToOgg { source: source@, dest: dest@ },
            FileOp::WriteText { path, text } => Op::WriteText { path: path@, text: text@ },
        }
    }
}

/// The values of a list of commands, in order.
pub open spec fn op_views(ops: Seq<FileOp>) -> Seq<Op> {
    Seq::new(ops.len(), |i: int| ops[i]@)
}

/// The view of a list grown by one command.
pub proof fn lemma_op_views_push(ops: Seq<FileOp>, op: FileOp)
    ensures
        op_views(ops.push(op)) == op_views(ops).push(op@),
{
}

} // verus!
