//! Insertion plans: which audio goes where, and which caption with it.

use crate::assoc::{
    assoc_map, has_key, keys_distinct, lemma_assoc_at, lemma_assoc_empty, lemma_assoc_len,
    lemma_assoc_push, lemma_assoc_update,
};
use crate::text::{opt_text, same_text};
use vstd::prelude::*;

verus! {

/// Where a group of sound files lives inside the installation.
#[derive(Debug, Clone, PartialEq, Eq, Hash)]
pub enum SoundDestination {
    /// Inside the package archive with this path, relative to the asset root.
    Package(String),
    /// Loose in the asset root.
    Root,
}

/// The mathematical value of a [`SoundDestination`].
pub enum Destination {
    Package(Seq<char>),
    Root,
}

impl View for SoundDestination {
    type V = Destination;

    open spec fn view(&self) -> Destination {
        match self {
            SoundDestination::Package(p) => Destination::Package(p@),
            SoundDestination::Root => Destination::Root,
        }
    }
}

impl SoundDestination {
    /// Whether two destinations are the same place.
    pub fn same(&self, other: &SoundDestination) -> (r: bool)
        ensures
            r == (self@ == other@),
    {
        match (self, other) {
            (SoundDestination::Root, SoundDestination::Root) => true,
            (SoundDestination::Package(a), SoundDestination::Package(b)) => same_text(
                a.as_str(),
                b.as_str(),
            ),
            _ => false,
        }
    }
}

/// One replacement: the audio file at `source_file` takes the place of the
/// sound container at `dest_file`.
#[derive(Debug, Clone, PartialEq, Eq)]
pub struct SoundInsertion {
    /// Path of the replacement audio.
    pub source_file: String,
    /// Path of the sound container to replace, relative to its destination.
    pub dest_file: String,
}

/// The mathematical value of a [`SoundInsertion`].
pub struct Insertion {
    pub source_file: Seq<char>,
    pub dest_file: Seq<char>,
}

impl View for SoundInsertion {
    type V = Insertion;

    open spec fn view(&self) -> Insertion {
        Insertion { source_file: self.source_file@, dest_file: self.dest_file@ }
    }
}

/// The values of a list of insertions, in order.
pub open spec fn insertion_views(files: Seq<SoundInsertion>) -> Seq<Insertion> {
    Seq::new(files.len(), |i: int| files[i]@)
}

/// The insertions of one destination, in the order they were planned.
#[derive(Debug, Clone, PartialEq, Eq)]
pub struct SoundGroup {
    pub destination: SoundDestination,
    pub files: Vec<SoundInsertion>,
}

/// The groups as destination/insertions pairs, in order.
spec fn group_pairs(groups: Seq<SoundGroup>) -> Seq<(Destination, Seq<Insertion>)> {
    Seq::new(groups.len(), |i: int| (groups[i].destination@, insertion_views(groups[i].files@)))
}

/// Sound insertions grouped by destination. Groups keep the order in which
/// their destinations were first used.
#[derive(Debug, PartialEq, Eq)]
pub struct SoundInsertionMap {
    groups: Vec<SoundGroup>,
}

impl View for SoundInsertionMap {
    type V = Map<Destination, Seq<Insertion>>;

    open spec fn view(&self) -> Map<Destination, Seq<Insertion>> {
        assoc_map(self.pairs())
    }
}

impl SoundInsertionMap {
    /// The groups as destination/insertions pairs, in order.
    pub closed spec fn pairs(&self) -> Seq<(Destination, Seq<Insertion>)> {
        group_pairs(self.groups@)
    }

    /// No destination has two groups.
    #[verifier::type_invariant]
    closed spec fn groups_distinct(&self) -> bool {
        keys_distinct(self.pairs())
    }

    /// An empty map.
    pub fn new() -> (m: SoundInsertionMap)
        ensures
            m@ == Map::<Destination, Seq<Insertion>>::empty(),
            m.pairs().len() == 0,
    {
        let groups: Vec<SoundGroup> = Vec::new();
        let m = SoundInsertionMap { groups };
        proof {
            lemma_assoc_empty::<Destination, Seq<Insertion>>();
        }
        m
    }

    /// The number of groups: of destinations with an insertion.
    pub fn len(&self) -> (n: usize)
        ensures
            n == self.pairs().len(),
            self@.dom().finite(),
            n == self@.dom().len(),
    {
        proof {
            use_type_invariant(self);
            lemma_assoc_len(self.pairs());
        }
        self.groups.len()
    }

    /// The position of the group of `destination`, if it has one.
    fn find(&self, destination: &SoundDestination) -> (r: Option<usize>)
        ensures
            match r {
                Some(i) => i < self.pairs().len() && self.pairs()[i as int].0 == destination@,
                None => !has_key(self.pairs(), destination@),
            },
    {
        let mut i: usize = 0;
        while i < self.groups.len()
            invariant
                i <= self.groups@.len(),
                forall|j: int| 0 <= j < i ==> (#[trigger] self.pairs()[j]).0 != destination@,
            decreases self.groups@.len() - i,
        {
            if self.groups[i].destination.same(destination) {
                return Some(i);
            }
            i += 1;
        }
        None
    }

    /// Whether some insertion is planned for `destination`.
    pub fn contains_key(&self, destination: &SoundDestination) -> (r: bool)
        ensures
            r == self@.dom().contains(destination@),
    {
        self.find(destination).is_some()
    }

    /// The insertions planned for `destination`, if any.
    pub fn get(&self, destination: &SoundDestination) -> (r: Option<&Vec<SoundInsertion>>)
        ensures
            match r {
                Some(files) => self@.dom().contains(destination@) && insertion_views(files@)
                    == self@[destination@],
                None => !self@.dom().contains(destination@),
            },
    {
        match self.find(destination) {
            Some(i) => {
                proof {
                    use_type_invariant(self);
                    lemma_assoc_at(self.pairs(), i as int);
                }
                Some(&self.groups[i].files)
            },
            None => None,
        }
    }

    /// The group at position `i`.
    pub fn group(&self, i: usize) -> (g: &SoundGroup)
        requires
            i < self.pairs().len(),
        ensures
            (g.destination@, insertion_views(g.files@)) == self.pairs()[i as int],
    {
        &self.groups[i]
    }

    /// Gives up the groups, in order.
    pub fn into_groups(self) -> (groups: Vec<SoundGroup>)
        ensures
            groups@.len() == self.pairs().len(),
            forall|i: int|
                0 <= i < groups@.len() ==> (
                    groups@[i].destination@,
                    insertion_views(groups@[i].files@),
                ) == #[trigger] self.pairs()[i],
    {
        self.groups
    }

    /// Plans one more insertion: appends it to the group of `destination`,
    /// which is created at the end if it does not exist yet.
    pub fn add(&mut self, destination: SoundDestination, insertion: SoundInsertion)
        ensures
            final(self)@ == with_insertion(old(self)@, destination@, insertion@),
    {
        proof {
            use_type_invariant(&*self);
        }
        let ghost before = self.pairs();
        let found = self.find(&destination);
        let mut groups: Vec<SoundGroup> = Vec::new();
        core::mem::swap(&mut self.groups, &mut groups);
        match found {
            Some(i) => {
                let ghost files_before = groups@[i as int].files@;
                groups[i].files.push(insertion);
                proof {
                    let grown = insertion_views(files_before).push(insertion@);
                    assert(insertion_views(groups@[i as int].files@) =~= grown);
                    assert(group_pairs(groups@) =~= before.update(
                        i as int,
                        (before[i as int].0, grown),
                    ));
                    lemma_assoc_update(before, i as int, grown);
                    lemma_assoc_at(before, i as int);
                }
            },
            None => {
                let ghost d = destination@;
                let ghost single = seq![insertion@];
                let mut files: Vec<SoundInsertion> = Vec::new();
                files.push(insertion);
                groups.push(SoundGroup { destination, files });
                proof {
                    assert(insertion_views(files@) =~= single);
                    assert(group_pairs(groups@) =~= before.push((d, single)));
                    lemma_assoc_push(before, d, single);
                }
            },
        }
        core::mem::swap(&mut self.groups, &mut groups);
    }
}

/// The map after one more insertion is planned for `destination`.
pub open spec fn with_insertion(
    m: Map<Destination, Seq<Insertion>>,
    destination: Destination,
    insertion: Insertion,
) -> Map<Destination, Seq<Insertion>> {
    if m.dom().contains(destination) {
        m.insert(destination, m[destination].push(insertion))
    } else {
        m.insert(destination, seq![insertion])
    }
}

/// One caption decision: the slot with subtitle `key` takes its caption
/// from the file at `caption`, or is left without a caption.
#[derive(Debug, Clone, PartialEq, Eq)]
pub struct SubsEntry {
    pub key: String,
    pub caption: Option<String>,
}

/// The entries as key/caption pairs, in order.
spec fn entry_pairs(entries: Seq<SubsEntry>) -> Seq<(Seq<char>, Option<Seq<char>>)> {
    Seq::new(entries.len(), |i: int| (entries[i].key@, opt_text(entries[i].caption)))
}

/// Caption decisions by subtitle key. A key that is absent keeps its
/// own caption. Entries keep the order in which their keys were first
/// used.
#[derive(Debug, PartialEq, Eq)]
pub struct SubsInsertionMap {
    entries: Vec<SubsEntry>,
}

impl View for SubsInsertionMap {
    type V = Map<Seq<char>, Option<Seq<char>>>;

    open spec fn view(&self) -> Map<Seq<char>, Option<Seq<char>>> {
        assoc_map(self.pairs())
    }
}

impl SubsInsertionMap {
    /// The entries as key/caption pairs, in order.
    pub closed spec fn pairs(&self) -> Seq<(Seq<char>, Option<Seq<char>>)> {
        entry_pairs(self.entries@)
    }

    /// No key has two entries.
    #[verifier::type_invariant]
    closed spec fn entries_distinct(&self) -> bool {
        keys_distinct(self.pairs())
    }

    /// An empty map.
    pub fn new() -> (m: SubsInsertionMap)
        ensures
            m@ == Map::<Seq<char>, Option<Seq<char>>>::empty(),
            m.pairs().len() == 0,
    {
        let entries: Vec<SubsEntry> = Vec::new();
        let m = SubsInsertionMap { entries };
        proof {
            lemma_assoc_empty::<Seq<char>, Option<Seq<char>>>();
        }
        m
    }

    /// The number of entries: of keys with a caption decision.
    pub fn len(&self) -> (n: usize)
        ensures
            n == self.pairs().len(),
            self@.dom().finite(),
            n == self@.dom().len(),
    {
        proof {
            use_type_invariant(self);
            lemma_assoc_len(self.pairs());
        }
        self.entries.len()
    }

    /// The position of the entry of `key`, if it has one.
    fn find(&self, key: &str) -> (r: Option<usize>)
        ensures
            match r {
                Some(i) => i < self.pairs().len() && self.pairs()[i as int].0 == key@,
                None => !has_key(self.pairs(), key@),
            },
    {
        let mut i: usize = 0;
        while i < self.entries.len()
            invariant
                i <= self.entries@.len(),
                forall|j: int| 0 <= j < i ==> (#[trigger] self.pairs()[j]).0 != key@,
            decreases self.entries@.len() - i,
        {
            if same_text(self.entries[i].key.as_str(), key) {
                return Some(i);
            }
            i += 1;
        }
        None
    }

    /// Whether a caption decision was made for `key`.
    pub fn contains_key(&self, key: &str) -> (r: bool)
        ensures
            r == self@.dom().contains(key@),
    {
        self.find(key).is_some()
    }

    /// The caption decision for `key`, if one was made.
    pub fn get(&self, key: &str) -> (r: Option<&Option<String>>)
        ensures
            match r {
                Some(caption) => self@.dom().contains(key@) && opt_text(*caption) == self@[key@],
                None => !self@.dom().contains(key@),
            },
    {
        match self.find(key) {
            Some(i) => {
                proof {
                    use_type_invariant(self);
                    lemma_assoc_at(self.pairs(), i as int);
                }
                Some(&self.entries[i].caption)
            },
            None => None,
        }
    }

    /// The entry at position `i`.
    pub fn entry(&self, i: usize) -> (e: &SubsEntry)
        requires
            i < self.pairs().len(),
        ensures
            (e.key@, opt_text(e.caption)) == self.pairs()[i as int],
    {
        &self.entries[i]
    }

    /// Records the caption decision for `key`, replacing an earlier one.
    pub fn insert(&mut self, key: String, caption: Option<String>)
        ensures
            final(self)@ == old(self)@.insert(key@, opt_text(caption)),
    {
        proof {
            use_type_invariant(&*self);
        }
        let ghost before = self.pairs();
        let ghost decided = opt_text(caption);
        let found = self.find(key.as_str());
        let mut entries: Vec<SubsEntry> = Vec::new();
        core::mem::swap(&mut self.entries, &mut entries);
        match found {
            Some(i) => {
                entries[i].caption = caption;
                proof {
                    assert(entry_pairs(entries@) =~= before.update(
                        i as int,
                        (before[i as int].0, decided),
                    ));
                    lemma_assoc_update(before, i as int, decided);
                }
            },
            None => {
                let ghost k = key@;
                entries.push(SubsEntry { key, caption });
                proof {
                    assert(entry_pairs(entries@) =~= before.push((k, decided)));
                    lemma_assoc_push(before, k, decided);
                }
            },
        }
        core::mem::swap(&mut self.entries, &mut entries);
    }
}

} // verus!
