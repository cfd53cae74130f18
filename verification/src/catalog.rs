//! The data catalog: every slot of the installation that can take new audio.

use crate::plan::{Destination, SoundDestination};
use crate::text::{clone_opt, opt_text, same_text};
use vstd::prelude::*;

verus! {

/// One replaceable audio position.
#[derive(Debug, Clone, PartialEq, Eq)]
pub struct AudioLog {
    /// The package archive that holds the slot, relative to the asset root;
    /// `None` when the slot is a loose file in the asset root.
    pub package: Option<String>,
    /// Path of the sound container inside the package or the asset root.
    pub filename: String,
    /// Key of the slot's caption in the subtitle database.
    pub subtitle: String,
}

/// The mathematical value of an [`AudioLog`].
pub struct Slot {
    pub package: Option<Seq<char>>,
    pub filename: Seq<char>,
    pub subtitle: Seq<char>,
}

impl View for AudioLog {
    type V = Slot;

    open spec fn view(&self) -> Slot {
        Slot {
            package: opt_text(self.package),
            filename: self.filename@,
            subtitle: self.subtitle@,
        }
    }
}

/// The destination group a slot belongs to: its package, or the asset
/// root when it has none.
pub open spec fn destination_of(slot: Slot) -> Destination {
    match slot.package {
        Some(p) => Destination::Package(p),
        None => Destination::Root,
    }
}

impl AudioLog {
    /// The destination group this slot belongs to.
    pub fn destination(&self) -> (d: SoundDestination)
        ensures
            d@ == destination_of(self@),
    {
        match &self.package {
            Some(p) => SoundDestination::Package(p.clone()),
            None => SoundDestination::Root,
        }
    }

    /// A copy of this slot.
    pub fn duplicate(&self) -> (r: AudioLog)
        ensures
            r@ == self@,
    {
        AudioLog {
            package: clone_opt(&self.package),
            filename: self.filename.clone(),
            subtitle: self.subtitle.clone(),
        }
    }

    /// Whether two slots are at the same place: in the same package, or
    /// both loose, and under the same file name.
    pub fn same_location(&self, other: &AudioLog) -> (r: bool)
        ensures
            r == (self@.package == other@.package && self@.filename == other@.filename),
    {
        let same_package = match (&self.package, &other.package) {
            (None, None) => true,
            (Some(a), Some(b)) => same_text(a.as_str(), b.as_str()),
            _ => false,
        };
        same_package && same_text(self.filename.as_str(), other.filename.as_str())
    }
}

/// The values of a list of slots, in order.
pub open spec fn slot_views(logs: Seq<AudioLog>) -> Seq<Slot> {
    Seq::new(logs.len(), |i: int| logs[i]@)
}

/// No two slots are at the same place.
pub open spec fn locations_distinct(slots: Seq<Slot>) -> bool {
    forall|i: int, j: int|
        0 <= i < j < slots.len() ==> !((#[trigger] slots[i]).package == (#[trigger] slots[j]).package
            && slots[i].filename == slots[j].filename)
}

/// No two slots share a subtitle key.
pub open spec fn subtitles_distinct(slots: Seq<Slot>) -> bool {
    forall|i: int, j: int|
        0 <= i < j < slots.len() ==> (#[trigger] slots[i]).subtitle != (#[trigger] slots[j]).subtitle
}

/// The catalog of slots. It is fixed once built.
#[derive(Debug, Clone, PartialEq, Eq)]
pub struct DataStore {
    logs: Vec<AudioLog>,
}

impl View for DataStore {
    type V = Seq<Slot>;

    closed spec fn view(&self) -> Seq<Slot> {
        slot_views(self.logs@)
    }
}

impl DataStore {
    /// A catalog of the given slots, in the given order.
    pub fn new(logs: Vec<AudioLog>) -> (store: DataStore)
        ensures
            store@ == slot_views(logs@),
    {
        DataStore { logs }
    }

    /// The number of slots.
    pub fn len(&self) -> (n: usize)
        ensures
            n == self@.len(),
    {
        self.logs.len()
    }

    /// A copy of the slots, in catalog order.
    pub fn get_logs(&self) -> (logs: Vec<AudioLog>)
        ensures
            slot_views(logs@) == self@,
    {
        let mut logs: Vec<AudioLog> = Vec::with_capacity(self.logs.len());
        let mut i: usize = 0;
        while i < self.logs.len()
            invariant
                i <= self.logs@.len(),
                logs@.len() == i,
                forall|j: int| 0 <= j < i ==> (#[trigger] logs@[j])@ == self.logs@[j]@,
            decreases self.logs@.len() - i,
        {
            logs.push(self.logs[i].duplicate());
            i += 1;
        }
        logs
    }

    /// Whether no two slots share a subtitle key, so that every caption
    /// belongs to one slot.
    pub fn has_distinct_subtitles(&self) -> (r: bool)
        ensures
            r == subtitles_distinct(self@),
    {
        let n: usize = self.logs.len();
        let mut j: usize = 0;
        while j < n
            invariant
                n == self.logs@.len(),
                j <= n,
                forall|a: int, b: int|
                    0 <= a < b < j ==> (#[trigger] self@[a]).subtitle != (
                    #[trigger] self@[b]).subtitle,
            decreases n - j,
        {
            let mut i: usize = 0;
            while i < j
                invariant
                    n == self.logs@.len(),
                    i <= j < n,
                    forall|a: int|
                        0 <= a < i ==> (#[trigger] self@[a]).subtitle != self@[j as int].subtitle,
                decreases j - i,
            {
                if same_text(self.logs[i].subtitle.as_str(), self.logs[j].subtitle.as_str()) {
                    assert(self@[i as int].subtitle == self@[j as int].subtitle);
                    return false;
                }
                i += 1;
            }
            j += 1;
        }
        true
    }

    /// Whether the catalog keeps its invariant: no two slots at the same
    /// place.
    pub fn has_distinct_locations(&self) -> (r: bool)
        ensures
            r == locations_distinct(self@),
    {
        let n: usize = self.logs.len();
        let mut j: usize = 0;
        while j < n
            invariant
                n == self.logs@.len(),
                j <= n,
                forall|a: int, b: int|
                    0 <= a < b < j ==> !((#[trigger] self@[a]).package == (#[trigger] self@[b]).package
                        && self@[a].filename == self@[b].filename),
            decreases n - j,
        {
            let mut i: usize = 0;
            while i < j
                invariant
                    n == self.logs@.len(),
                    i <= j < n,
                    forall|a: int|
                        0 <= a < i ==> !((#[trigger] self@[a]).package == self@[j as int].package
                            && self@[a].filename == self@[j as int].filename),
                decreases j - i,
            {
                if self.logs[i].same_location(&self.logs[j]) {
                    assert(self@[i as int].package == self@[j as int].package);
                    return false;
                }
                i += 1;
            }
            j += 1;
        }
        true
    }
}

} // verus!
