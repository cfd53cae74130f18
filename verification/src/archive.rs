//! The archive manager: what to do with each entry when a package archive
//! is unpacked, searched or packed.
//!
//! The host reads and writes the archives. It tells the library what an
//! archive or a directory holds, and carries out the steps it gets back, in
//! order.

use crate::paths::{join, joined, lemma_joined_injective};
use crate::text::{chars_of, opt_text, same_text};
use vstd::prelude::*;

verus! {

/// Permission bits given to every entry of a packed archive.
pub const UNIX_PERMISSIONS: u32 = 0o755;

/// One entry of an archive, as the host found it.
#[derive(Debug, Clone, PartialEq, Eq)]
pub struct ArchiveEntry {
    /// The name the entry is stored under.
    pub name: String,
    /// The stored name as a path that stays inside the directory it is
    /// extracted into; `None` when the name would lead outside it.
    pub enclosed_name: Option<String>,
}

/// The mathematical value of an [`ArchiveEntry`].
pub struct Entry {
    pub name: Seq<char>,
    pub enclosed_name: Option<Seq<char>>,
}

impl View for ArchiveEntry {
    type V = Entry;

    open spec fn view(&self) -> Entry {
        Entry { name: self.name@, enclosed_name: opt_text(self.enclosed_name) }
    }
}

/// The values of a list of entries, in order.
pub open spec fn entry_views(entries: Seq<ArchiveEntry>) -> Seq<Entry> {
    Seq::new(entries.len(), |i: int| entries[i]@)
}

/// One step of taking entries out of an archive.
#[derive(Debug, Clone, PartialEq, Eq)]
pub enum UnpackStep {
    /// Create the directory at `path` and the directories above it.
    CreateDir { path: String },
    /// Write the contents of the entry at position `entry` to a new file at
    /// `path`. With `make_parent`, first create the directories above it.
    WriteFile { entry: usize, path: String, make_parent: bool },
}

/// The mathematical value of an [`UnpackStep`].
pub enum Extraction {
    CreateDir { path: Seq<char> },
    WriteFile { entry: int, path: Seq<char>, make_parent: bool },
}

impl View for UnpackStep {
    type V = Extraction;

    open spec fn view(&self) -> Extraction {
        match self {
            UnpackStep::CreateDir { path } => Extraction::CreateDir { path: path@ },
            UnpackStep::WriteFile { entry, path, make_parent } => Extraction::WriteFile {
                entry: *entry as int,
                path: path@,
                make_parent: *make_parent,
            },
        }
    }
}

/// The values of a list of steps, in order.
pub open spec fn step_views(steps: Seq<UnpackStep>) -> Seq<Extraction> {
    Seq::new(steps.len(), |i: int| steps[i]@)
}

/// Whether the stored name marks a directory: it ends in `/`.
pub open spec fn names_directory(name: Seq<char>) -> bool {
    name.len() > 0 && name.last() == '/'
}

/// The steps that unpack the first `n` entries into `dest_dir`.
///
/// An entry whose name would lead outside `dest_dir` is passed over. A
/// directory entry has its directory created, even if nothing is in it.
/// Any other entry is written to a file, below directories that are
/// created as needed.
pub open spec fn unpack_steps(entries: Seq<Entry>, dest_dir: Seq<char>, n: int) -> Seq<Extraction>
    decreases n,
{
    if n <= 0 {
        Seq::empty()
    } else {
        let earlier = unpack_steps(entries, dest_dir, n - 1);
        let entry = entries[n - 1];
        match entry.enclosed_name {
            None => earlier,
            Some(inside) => if names_directory(entry.name) {
                earlier.push(Extraction::CreateDir { path: joined(dest_dir, inside) })
            } else {
                earlier.push(
                    Extraction::WriteFile {
                        entry: n - 1,
                        path: joined(dest_dir, inside),
                        make_parent: true,
                    },
                )
            },
        }
    }
}

/// The steps that extract the member stored as `member` from the first `n`
/// names of an archive: every entry stored under exactly that name is
/// written to the one file named `member` in `dest_dir`.
pub open spec fn extract_steps(
    names: Seq<Seq<char>>,
    member: Seq<char>,
    dest_dir: Seq<char>,
    n: int,
) -> Seq<Extraction>
    decreases n,
{
    if n <= 0 {
        Seq::empty()
    } else {
        let earlier = extract_steps(names, member, dest_dir, n - 1);
        if names[n - 1] == member {
            earlier.push(
                Extraction::WriteFile {
                    entry: n - 1,
                    path: joined(dest_dir, member),
                    make_parent: false,
                },
            )
        } else {
            earlier
        }
    }
}

/// The views of a list of names, in order.
pub open spec fn name_views(names: Seq<String>) -> Seq<Seq<char>> {
    Seq::new(names.len(), |i: int| names[i]@)
}

/// The view of a list grown by one step.
proof fn lemma_step_views_push(steps: Seq<UnpackStep>, step: UnpackStep)
    ensures
        step_views(steps.push(step)) == step_views(steps).push(step@),
{
}

/// No name among the first `n` is `member` exactly when there is nothing to
/// extract.
pub proof fn lemma_extract_nothing(
    names: Seq<Seq<char>>,
    member: Seq<char>,
    dest_dir: Seq<char>,
    n: int,
)
    requires
        0 <= n <= names.len(),
    ensures
        extract_steps(names, member, dest_dir, n).len() == 0 <==> forall|i: int|
            0 <= i < n ==> #[trigger] names[i] != member,
    decreases n,
{
    if n > 0 {
        lemma_extract_nothing(names, member, dest_dir, n - 1);
    }
}

/// Plans the unpacking of an archive with the given entries into
/// `dest_dir`.
pub fn unpack(entries: &Vec<ArchiveEntry>, dest_dir: &str) -> (steps: Vec<UnpackStep>)
    ensures
        step_views(steps@) == unpack_steps(entry_views(entries@), dest_dir@, entries@.len() as int),
{
    let mut steps: Vec<UnpackStep> = Vec::new();
    let mut i: usize = 0;
    while i < entries.len()
        invariant
            i <= entries@.len(),
            step_views(steps@) == unpack_steps(entry_views(entries@), dest_dir@, i as int),
        decreases entries@.len() - i,
    {
        let entry = &entries[i];
        let ghost before = steps@;
        match &entry.enclosed_name {
            None => {},
            Some(inside) => {
                let path = join(dest_dir, inside.as_str());
                let name = chars_of(entry.name.as_str());
                let step = if name.len() > 0 && name[name.len() - 1] == '/' {
                    UnpackStep::CreateDir { path }
                } else {
                    UnpackStep::WriteFile { entry: i, path, make_parent: true }
                };
                steps.push(step);
                proof {
                    lemma_step_views_push(before, step);
                }
            },
        }
        i += 1;
    }
    steps
}

/// Plans the extraction of the one member stored as `file_to_extract`.
///
/// Stored names are compared as they are, character by character. When no
/// entry has that name there is nothing to do, and the plan is empty: that
/// is no failure, and no file appears in `dest_dir`.
pub fn extract(names: &Vec<String>, file_to_extract: &str, dest_dir: &str) -> (steps: Vec<
    UnpackStep,
>)
    ensures
        step_views(steps@) == extract_steps(
            name_views(names@),
            file_to_extract@,
            dest_dir@,
            names@.len() as int,
        ),
        steps@.len() == 0 <==> forall|i: int|
            0 <= i < names@.len() ==> #[trigger] name_views(names@)[i] != file_to_extract@,
{
    let mut steps: Vec<UnpackStep> = Vec::new();
    let mut i: usize = 0;
    while i < names.len()
        invariant
            i <= names@.len(),
            step_views(steps@) == extract_steps(
                name_views(names@),
                file_to_extract@,
                dest_dir@,
                i as int,
            ),
        decreases names@.len() - i,
    {
        let ghost before = steps@;
        if same_text(names[i].as_str(), file_to_extract) {
            let step = UnpackStep::WriteFile {
                entry: i,
                path: join(dest_dir, file_to_extract),
                make_parent: false,
            };
            steps.push(step);
            proof {
                lemma_step_views_push(before, step);
            }
        }
        i += 1;
    }
    proof {
        lemma_extract_nothing(
            name_views(names@),
            file_to_extract@,
            dest_dir@,
            names@.len() as int,
        );
    }
    steps
}

/// One file or directory met while walking a directory tree.
#[derive(Debug, Clone, PartialEq, Eq)]
pub struct WalkItem {
    /// Its path relative to the directory walked; empty for that directory
    /// itself.
    pub relative: String,
    /// Whether it is a file.
    pub is_file: bool,
}

/// The mathematical value of a [`WalkItem`].
pub struct Walked {
    pub relative: Seq<char>,
    pub is_file: bool,
}

impl View for WalkItem {
    type V = Walked;

    open spec fn view(&self) -> Walked {
        Walked { relative: self.relative@, is_file: self.is_file }
    }
}

/// The values of a list of walked items, in order.
pub open spec fn walked_views(items: Seq<WalkItem>) -> Seq<Walked> {
    Seq::new(items.len(), |i: int| items[i]@)
}

/// One step of writing an archive. Every entry is stored without
/// compression and with the permission bits [`UNIX_PERMISSIONS`].
#[derive(Debug, Clone, PartialEq, Eq)]
pub enum PackStep {
    /// Add a file entry named `name` with the contents of the walked item
    /// at position `item`.
    AddFile { item: usize, name: String },
    /// Add a directory entry named `name`.
    AddDirectory { name: String },
}

/// The mathematical value of a [`PackStep`].
pub enum Packing {
    AddFile { item: int, name: Seq<char> },
    AddDirectory { name: Seq<char> },
}

impl View for PackStep {
    type V = Packing;

    open spec fn view(&self) -> Packing {
        match self {
            PackStep::AddFile { item, name } => Packing::AddFile { item: *item as int, name: name@ },
            PackStep::AddDirectory { name } => Packing::AddDirectory { name: name@ },
        }
    }
}

/// The values of a list of steps, in order.
pub open spec fn packing_views(steps: Seq<PackStep>) -> Seq<Packing> {
    Seq::new(steps.len(), |i: int| steps[i]@)
}

/// The steps that pack the first `n` walked items: every file, and every
/// directory but the one walked, becomes an entry named by its relative
/// path, in the order of the walk.
pub open spec fn pack_steps(items: Seq<Walked>, n: int) -> Seq<Packing>
    decreases n,
{
    if n <= 0 {
        Seq::empty()
    } else {
        let earlier = pack_steps(items, n - 1);
        let item = items[n - 1];
        if item.is_file {
            earlier.push(Packing::AddFile { item: n - 1, name: item.relative })
        } else if item.relative.len() > 0 {
            earlier.push(Packing::AddDirectory { name: item.relative })
        } else {
            earlier
        }
    }
}

/// Plans the packing of a directory tree whose walk gave `items`.
pub fn pack(items: &Vec<WalkItem>) -> (steps: Vec<PackStep>)
    ensures
        packing_views(steps@) == pack_steps(walked_views(items@), items@.len() as int),
{
    let mut steps: Vec<PackStep> = Vec::new();
    let mut i: usize = 0;
    while i < items.len()
        invariant
            i <= items@.len(),
            packing_views(steps@) == pack_steps(walked_views(items@), i as int),
        decreases items@.len() - i,
    {
        let item = &items[i];
        if item.is_file {
            let step = PackStep::AddFile { item: i, name: item.relative.clone() };
            steps.push(step);
        } else if !item.relative.as_str().is_empty() {
            let step = PackStep::AddDirectory { name: item.relative.clone() };
            steps.push(step);
        }
        i += 1;
    }
    steps
}

/// The name that a packing step's entry is stored under. The name of a
/// directory entry ends in `/`.
pub open spec fn stored_name(step: Packing) -> Seq<char> {
    match step {
        Packing::AddFile { item, name } => name,
        Packing::AddDirectory { name } => name + seq!['/'],
    }
}

/// The entries of the archive that the steps write, where every name
/// stays inside the directory it is extracted into.
pub open spec fn stored_entries(steps: Seq<Packing>) -> Seq<Entry> {
    Seq::new(
        steps.len(),
        |k: int| Entry { name: stored_name(steps[k]), enclosed_name: Some(stored_name(steps[k])) },
    )
}

/// What unpacking makes of the entry that a packing step wrote as entry
/// `k`: the directory again, or the file again, under the same relative
/// path.
pub open spec fn restored(step: Packing, k: int, dest_dir: Seq<char>) -> Extraction {
    match step {
        Packing::AddFile { item, name } => Extraction::WriteFile {
            entry: k,
            path: joined(dest_dir, name),
            make_parent: true,
        },
        Packing::AddDirectory { name } => Extraction::CreateDir {
            path: joined(dest_dir, name + seq!['/']),
        },
    }
}

/// No file's relative path ends in `/`.
pub open spec fn files_named_plainly(items: Seq<Walked>) -> bool {
    forall|i: int|
        0 <= i < items.len() && (#[trigger] items[i]).is_file ==> !names_directory(items[i].relative)
}

/// Whether a walked item becomes an entry: every file does, and every
/// directory but the one walked.
pub open spec fn is_packed(item: Walked) -> bool {
    item.is_file || item.relative.len() > 0
}

/// The step that packs the walked item at position `i`.
pub open spec fn packing_of(item: Walked, i: int) -> Packing {
    if item.is_file {
        Packing::AddFile { item: i, name: item.relative }
    } else {
        Packing::AddDirectory { name: item.relative }
    }
}

/// Which step packs the walked item at position `i`: as many steps come
/// before it as the items before it need.
pub open spec fn step_of(items: Seq<Walked>, i: int) -> int {
    pack_steps(items, i).len() as int
}

/// Which walked item the step at position `k` packs, among the first `n`.
pub open spec fn item_of(items: Seq<Walked>, n: int, k: int) -> int
    decreases n,
{
    if n <= 0 {
        -1
    } else if k < pack_steps(items, n - 1).len() {
        item_of(items, n - 1, k)
    } else {
        n - 1
    }
}

/// Where unpacking puts the walked item at position `i` when its entry is
/// entry `k`: a directory is created again, a file is written again from
/// that entry, each under its relative path.
pub open spec fn restoring(item: Walked, i: int, k: int, dest_dir: Seq<char>) -> Extraction {
    restored(packing_of(item, i), k, dest_dir)
}

/// The steps for the first `n` items are the first steps for the first
/// `m`.
proof fn lemma_pack_steps_grow(items: Seq<Walked>, n: int, m: int)
    requires
        0 <= n <= m,
    ensures
        pack_steps(items, n).len() <= pack_steps(items, m).len(),
        forall|k: int|
            0 <= k < pack_steps(items, n).len() ==> #[trigger] pack_steps(items, m)[k]
                == pack_steps(items, n)[k],
    decreases m - n,
{
    if n < m {
        lemma_pack_steps_grow(items, n, m - 1);
    }
}

/// Every packed item among the first `n` has its step.
proof fn lemma_item_has_step(items: Seq<Walked>, n: int, i: int)
    requires
        0 <= i < n,
        is_packed(items[i]),
    ensures
        0 <= step_of(items, i) < pack_steps(items, n).len(),
        pack_steps(items, n)[step_of(items, i)] == packing_of(items[i], i),
        item_of(items, n, step_of(items, i)) == i,
    decreases n,
{
    lemma_pack_steps_grow(items, i + 1, n);
    if i < n - 1 {
        lemma_item_has_step(items, n - 1, i);
        lemma_pack_steps_grow(items, i + 1, n - 1);
    }
}

/// Every step among the first `n` packs an item, and no other step packs
/// that item.
proof fn lemma_step_has_item(items: Seq<Walked>, n: int, k: int)
    requires
        0 <= k < pack_steps(items, n).len(),
    ensures
        0 <= item_of(items, n, k) < n,
        is_packed(items[item_of(items, n, k)]),
        step_of(items, item_of(items, n, k)) == k,
        pack_steps(items, n)[k] == packing_of(items[item_of(items, n, k)], item_of(items, n, k)),
    decreases n,
{
    if n > 0 && k < pack_steps(items, n - 1).len() {
        lemma_step_has_item(items, n - 1, k);
    }
}

/// Unpacking what was packed gives back the walked tree, as far as plans
/// can say it.
///
/// Let an archive store the entries that [`pack`] plans for a walk, under
/// the names planned, and let every name stay inside the directory it is
/// extracted into. Then the plan of [`unpack`] has one step for each
/// packed item and no other step. The step of a directory creates that
/// directory again under its relative path, empty or not. The step of a
/// file writes the file again under its relative path, and writes it from
/// the entry that was packed from that very file.
pub proof fn lemma_unpack_of_packed(items: Seq<Walked>, dest_dir: Seq<char>)
    requires
        files_named_plainly(items),
    ensures
        ({
            let n = items.len() as int;
            let steps = pack_steps(items, n);
            let plan = unpack_steps(stored_entries(steps), dest_dir, steps.len() as int);
            &&& plan.len() == steps.len()
            &&& forall|k: int| 0 <= k < steps.len() ==> #[trigger] plan[k] == restored(steps[k], k, dest_dir)
            &&& forall|i: int|
                0 <= i < n && is_packed(#[trigger] items[i]) ==> 0 <= step_of(items, i)
                    < plan.len() && plan[step_of(items, i)] == restoring(
                    items[i],
                    i,
                    step_of(items, i),
                    dest_dir,
                )
            &&& forall|k: int|
                0 <= k < plan.len() ==> 0 <= item_of(items, n, k) < n && is_packed(
                    items[item_of(items, n, k)],
                ) && step_of(items, item_of(items, n, k)) == k && #[trigger] plan[k] == restoring(
                    items[item_of(items, n, k)],
                    item_of(items, n, k),
                    k,
                    dest_dir,
                )
        }),
{
    let n = items.len() as int;
    let steps = pack_steps(items, n);
    let plan = unpack_steps(stored_entries(steps), dest_dir, steps.len() as int);
    assert forall|k: int| 0 <= k < steps.len() implies (#[trigger] steps[k] matches Packing::AddFile {
        item,
        name,
    } ==> !names_directory(name)) by {
        lemma_step_has_item(items, n, k);
    }
    lemma_unpack_prefix(steps, dest_dir, steps.len() as int);
    assert forall|i: int| 0 <= i < n && is_packed(#[trigger] items[i]) implies 0 <= step_of(
        items,
        i,
    ) < plan.len() && plan[step_of(items, i)] == restoring(
        items[i],
        i,
        step_of(items, i),
        dest_dir,
    ) by {
        lemma_item_has_step(items, n, i);
    }
    assert forall|k: int| 0 <= k < plan.len() implies 0 <= item_of(items, n, k) < n && is_packed(
        items[item_of(items, n, k)],
    ) && step_of(items, item_of(items, n, k)) == k && #[trigger] plan[k] == restoring(
        items[item_of(items, n, k)],
        item_of(items, n, k),
        k,
        dest_dir,
    ) by {
        lemma_step_has_item(items, n, k);
    }
}

/// No two walked items have the same relative path.
pub open spec fn relatives_distinct(items: Seq<Walked>) -> bool {
    forall|i: int, j: int|
        0 <= i < j < items.len() ==> (#[trigger] items[i]).relative != (
        #[trigger] items[j]).relative
}

/// The path that an extraction step creates.
pub open spec fn created(step: Extraction) -> Seq<char> {
    match step {
        Extraction::CreateDir { path } => path,
        Extraction::WriteFile { entry, path, make_parent } => path,
    }
}

/// Unpacking what was packed from a tree puts no two items in one place:
/// every step creates a path of its own. So nothing that one step wrote is
/// replaced by another.
pub proof fn lemma_unpacked_paths_distinct(items: Seq<Walked>, dest_dir: Seq<char>)
    requires
        files_named_plainly(items),
        relatives_distinct(items),
    ensures
        ({
            let steps = pack_steps(items, items.len() as int);
            let plan = unpack_steps(stored_entries(steps), dest_dir, steps.len() as int);
            forall|k: int, l: int|
                0 <= k < l < plan.len() ==> created(#[trigger] plan[k]) != created(
                    #[trigger] plan[l],
                )
        }),
{
    let n = items.len() as int;
    let steps = pack_steps(items, n);
    let plan = unpack_steps(stored_entries(steps), dest_dir, steps.len() as int);
    lemma_unpack_of_packed(items, dest_dir);
    assert forall|k: int, l: int| 0 <= k < l < plan.len() implies created(#[trigger] plan[k])
        != created(#[trigger] plan[l]) by {
        lemma_step_has_item(items, n, k);
        lemma_step_has_item(items, n, l);
        let i = item_of(items, n, k);
        let j = item_of(items, n, l);
        assert(i != j);
        let a = stored_name(steps[k]);
        let b = stored_name(steps[l]);
        assert(items[i].relative != items[j].relative) by {
            if i < j {
                assert(items[i].relative != items[j].relative);
            } else {
                assert(items[j].relative != items[i].relative);
            }
        }
        assert(a != b) by {
            let slash = seq!['/'];
            if !items[i].is_file && !items[j].is_file {
                assert((items[i].relative + slash).drop_last() =~= items[i].relative);
                assert((items[j].relative + slash).drop_last() =~= items[j].relative);
            } else if items[i].is_file && !items[j].is_file {
                assert((items[j].relative + slash).last() == '/');
            } else if !items[i].is_file && items[j].is_file {
                assert((items[i].relative + slash).last() == '/');
            }
        }
        lemma_joined_injective(dest_dir, a, b);
        assert(created(plan[k]) == joined(dest_dir, a));
        assert(created(plan[l]) == joined(dest_dir, b));
    }
}

/// What a path holds: a directory, or a file with its bytes.
pub enum Node {
    Directory,
    File(Seq<u8>),
}

/// What an extraction step puts at the path it creates, when entry `e` of
/// the archive holds `data[e]`.
pub open spec fn put(step: Extraction, data: Seq<Seq<u8>>) -> Node {
    match step {
        Extraction::CreateDir { path } => Node::Directory,
        Extraction::WriteFile { entry, path, make_parent } => Node::File(data[entry]),
    }
}

/// What the first `n` steps of a plan leave behind in an empty place, when
/// the host carries them out with success: every path that a step created,
/// with what the step put there. Where two steps create the same path, the
/// later one counts.
pub open spec fn extracted(plan: Seq<Extraction>, data: Seq<Seq<u8>>, n: int) -> Map<
    Seq<char>,
    Node,
>
    decreases n,
{
    if n <= 0 {
        Map::empty()
    } else {
        extracted(plan, data, n - 1).insert(created(plan[n - 1]), put(plan[n - 1], data))
    }
}

/// What the entries hold that the packing steps write, when the walked
/// item at position `i` holds `contents[i]`: a file entry holds the bytes
/// of the file it was packed from, a directory entry holds nothing.
pub open spec fn packed_data(steps: Seq<Packing>, contents: Seq<Seq<u8>>) -> Seq<Seq<u8>> {
    Seq::new(
        steps.len(),
        |k: int|
            match steps[k] {
                Packing::AddFile { item, name } => contents[item],
                Packing::AddDirectory { name } => Seq::empty(),
            },
    )
}

/// What a walked item is: a directory, or a file with the given bytes.
pub open spec fn node_of(item: Walked, bytes: Seq<u8>) -> Node {
    if item.is_file {
        Node::File(bytes)
    } else {
        Node::Directory
    }
}

/// Where a walked item comes to lie when it is unpacked into `dest_dir`:
/// at its relative path, which for a directory ends in `/`.
pub open spec fn landing(item: Walked, dest_dir: Seq<char>) -> Seq<char> {
    joined(dest_dir, stored_name(packing_of(item, 0)))
}

/// Steps that create paths of their own leave behind exactly these paths,
/// each with what its step put there.
proof fn lemma_extracted(plan: Seq<Extraction>, data: Seq<Seq<u8>>, n: int)
    requires
        0 <= n <= plan.len(),
        forall|k: int, l: int|
            0 <= k < l < plan.len() ==> created(#[trigger] plan[k]) != created(#[trigger] plan[l]),
    ensures
        forall|k: int|
            0 <= k < n ==> extracted(plan, data, n).dom().contains(created(#[trigger] plan[k]))
                && extracted(plan, data, n)[created(plan[k])] == put(plan[k], data),
        forall|p: Seq<char>|
            extracted(plan, data, n).dom().contains(p) ==> exists|k: int|
                0 <= k < n && created(#[trigger] plan[k]) == p,
    decreases n,
{
    if n > 0 {
        lemma_extracted(plan, data, n - 1);
        assert forall|p: Seq<char>| extracted(plan, data, n).dom().contains(p) implies exists|
            k: int,
        |
            0 <= k < n && created(#[trigger] plan[k]) == p by {
            if p == created(plan[n - 1]) {
            } else {
                let k = choose|k: int| 0 <= k < n - 1 && created(#[trigger] plan[k]) == p;
                assert(created(plan[k]) == p);
            }
        }
    }
}

/// Packing a tree and unpacking the archive into an empty place gives the
/// tree back, as far as plans can say it: the same relative paths, a
/// directory where there was a directory, empty or not, and a file with the
/// same bytes where there was a file.
///
/// This is said of an archive that stores each entry under the name
/// planned and with the bytes it was given, where every name stays inside
/// the directory it is extracted into; and of a host that carries every
/// step out with success. `contents[i]` is what the walked item at
/// position `i` holds.
pub proof fn lemma_tree_restored(
    items: Seq<Walked>,
    contents: Seq<Seq<u8>>,
    dest_dir: Seq<char>,
)
    requires
        contents.len() == items.len(),
        files_named_plainly(items),
        relatives_distinct(items),
    ensures
        ({
            let steps = pack_steps(items, items.len() as int);
            let plan = unpack_steps(stored_entries(steps), dest_dir, steps.len() as int);
            let tree = extracted(plan, packed_data(steps, contents), plan.len() as int);
            &&& forall|i: int|
                0 <= i < items.len() && is_packed(#[trigger] items[i]) ==> tree.dom().contains(
                    landing(items[i], dest_dir),
                ) && tree[landing(items[i], dest_dir)] == node_of(items[i], contents[i])
            &&& forall|p: Seq<char>|
                tree.dom().contains(p) ==> exists|i: int|
                    0 <= i < items.len() && is_packed(#[trigger] items[i]) && landing(
                        items[i],
                        dest_dir,
                    ) == p
        }),
{
    let n = items.len() as int;
    let steps = pack_steps(items, n);
    let plan = unpack_steps(stored_entries(steps), dest_dir, steps.len() as int);
    let data = packed_data(steps, contents);
    let tree = extracted(plan, data, plan.len() as int);
    lemma_unpack_of_packed(items, dest_dir);
    lemma_unpacked_paths_distinct(items, dest_dir);
    lemma_extracted(plan, data, plan.len() as int);
    assert forall|i: int| 0 <= i < n && is_packed(#[trigger] items[i]) implies tree.dom().contains(
        landing(items[i], dest_dir),
    ) && tree[landing(items[i], dest_dir)] == node_of(items[i], contents[i]) by {
        lemma_item_has_step(items, n, i);
        let k = step_of(items, i);
        assert(created(plan[k]) == landing(items[i], dest_dir));
        assert(put(plan[k], data) == node_of(items[i], contents[i]));
    }
    assert forall|p: Seq<char>| tree.dom().contains(p) implies exists|i: int|
        0 <= i < n && is_packed(#[trigger] items[i]) && landing(items[i], dest_dir) == p by {
        let k = choose|k: int| 0 <= k < plan.len() && created(#[trigger] plan[k]) == p;
        lemma_step_has_item(items, n, k);
        let i = item_of(items, n, k);
        assert(is_packed(items[i]) && landing(items[i], dest_dir) == p);
    }
}

/// The first `n` entries of a packed archive unpack into the first `n`
/// packed items.
proof fn lemma_unpack_prefix(steps: Seq<Packing>, dest_dir: Seq<char>, n: int)
    requires
        0 <= n <= steps.len(),
        forall|k: int|
            0 <= k < steps.len() ==> (#[trigger] steps[k] matches Packing::AddFile { item, name }
                ==> !names_directory(name)),
    ensures
        unpack_steps(stored_entries(steps), dest_dir, n).len() == n,
        forall|k: int|
            0 <= k < n ==> #[trigger] unpack_steps(stored_entries(steps), dest_dir, n)[k]
                == restored(steps[k], k, dest_dir),
    decreases n,
{
    if n > 0 {
        lemma_unpack_prefix(steps, dest_dir, n - 1);
    }
}

} // verus!
