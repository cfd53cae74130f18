//! Replaces the audio logs of a game installation with audio of the user's
//! choosing, and puts the game's own data back on request.
//!
//! The library decides; its host touches the disk. Every operation takes
//! plain values (texts, byte strings, facts about which paths exist) and
//! returns plain values: converted bytes, parsed records, an insertion plan,
//! or a list of [`ops::FileOp`] commands for the host to carry out in order.
//!
//! - [`codec`]: the sound container, a header in front of an audio payload.
//! - [`archive`]: what to do with each entry when a package archive is
//!   unpacked, searched or packed.
//! - [`catalog`]: the slots that can take new audio.
//! - [`subtitles`]: the caption database, read and written;
//!   [`subtitle_laws`] relates the two.
//! - [`backup`]: the gates that back the game's data up once, and the
//!   restore.
//! - [`randomizer`]: candidate discovery and the seeded pairing of
//!   candidates with slots; [`shuffle`] draws the orders; [`plan`] holds
//!   the outcome.
//! - [`insertion`]: the commands that carry a plan out, and the dump of the
//!   installation's own audio.
//! - [`paths`], [`text`], [`assoc`], [`ops`]: paths as texts, character
//!   sequences, association sequences, and the commands themselves.

pub mod archive;
pub mod assoc;
pub mod backup;
pub mod catalog;
pub mod codec;
pub mod insertion;
pub mod ops;
pub mod paths;
pub mod plan;
pub mod randomizer;
pub mod shuffle;
pub mod subtitle_laws;
pub mod subtitles;
pub mod text;
