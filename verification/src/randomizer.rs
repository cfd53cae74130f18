//! The randomization engine: pairs candidate audio with catalog slots in an
//! order drawn from a seed.

use crate::catalog::{
    destination_of, locations_distinct, slot_views, subtitles_distinct, AudioLog, Slot,
};
use crate::paths::{extension, has_extension, replace_extension, with_extension};
use crate::plan::{
    with_insertion, Destination, Insertion, SoundInsertion, SoundInsertionMap, SubsInsertionMap,
};
use crate::shuffle::{draw_orders, is_order, shuffled_orders};
use crate::text::{clone_opt, opt_text, same_text};
use vstd::prelude::*;

verus! {

/// One audio file offered for insertion.
#[derive(Debug, Clone, PartialEq, Eq)]
pub struct NewLog {
    /// Path of the audio file.
    pub audio: String,
    /// Path of the caption file that goes with it, if there is one.
    pub subs: Option<String>,
}

/// The mathematical value of a [`NewLog`].
pub struct Candidate {
    pub audio: Seq<char>,
    pub subs: Option<Seq<char>>,
}

impl View for NewLog {
    type V = Candidate;

    open spec fn view(&self) -> Candidate {
        Candidate { audio: self.audio@, subs: opt_text(self.subs) }
    }
}

/// The values of a list of candidates, in order.
pub open spec fn candidate_views(logs: Seq<NewLog>) -> Seq<Candidate> {
    Seq::new(logs.len(), |i: int| logs[i]@)
}

/// One entry of the listing of the source directory.
#[derive(Debug, Clone, PartialEq, Eq)]
pub struct DirItem {
    /// The entry's path.
    pub path: String,
    /// Whether the entry is a file.
    pub is_file: bool,
}

/// The mathematical value of a [`DirItem`].
pub struct Listed {
    pub path: Seq<char>,
    pub is_file: bool,
}

impl View for DirItem {
    type V = Listed;

    open spec fn view(&self) -> Listed {
        Listed { path: self.path@, is_file: self.is_file }
    }
}

/// The values of a listing, in order.
pub open spec fn listed_views(listing: Seq<DirItem>) -> Seq<Listed> {
    Seq::new(listing.len(), |i: int| listing[i]@)
}

/// Some entry of the listing has the path `path`.
pub open spec fn is_listed(listing: Seq<Listed>, path: Seq<char>) -> bool {
    exists|i: int| 0 <= i < listing.len() && (#[trigger] listing[i]).path == path
}

/// Whether an entry is candidate audio: a file with the audio extension.
pub open spec fn is_audio(item: Listed) -> bool {
    item.is_file && extension(item.path) == Some("ogg"@)
}

/// The candidate that an audio entry stands for: the entry itself, with
/// the caption file of the same name beside it if the listing has one.
pub open spec fn candidate_of(listing: Seq<Listed>, item: Listed) -> Candidate {
    let caption = with_extension(item.path, "sub"@);
    Candidate {
        audio: item.path,
        subs: if is_listed(listing, caption) {
            Some(caption)
        } else {
            None
        },
    }
}

/// The candidates among the first `n` entries of the listing, in the order
/// of the listing.
pub open spec fn candidates_of(listing: Seq<Listed>, n: int) -> Seq<Candidate>
    decreases n,
{
    if n <= 0 {
        Seq::empty()
    } else if is_audio(listing[n - 1]) {
        candidates_of(listing, n - 1).push(candidate_of(listing, listing[n - 1]))
    } else {
        candidates_of(listing, n - 1)
    }
}

/// Whether some entry of the listing has the path `path`.
fn lists(listing: &Vec<DirItem>, path: &str) -> (r: bool)
    ensures
        r == is_listed(listed_views(listing@), path@),
{
    let mut i: usize = 0;
    while i < listing.len()
        invariant
            i <= listing@.len(),
            forall|j: int| 0 <= j < i ==> (#[trigger] listed_views(listing@)[j]).path != path@,
        decreases listing@.len() - i,
    {
        if same_text(listing[i].path.as_str(), path) {
            assert(listed_views(listing@)[i as int].path == path@);
            return true;
        }
        i += 1;
    }
    false
}

/// Discovers the candidates in the listing of the source directory.
///
/// Every file with the audio extension is a candidate, in the order of the
/// listing. Its caption is the entry of the same name with the caption
/// extension, if the listing has one. Directories below the source
/// directory are not looked into.
pub fn get_entries(listing: &Vec<DirItem>) -> (found: Vec<NewLog>)
    ensures
        candidate_views(found@) == candidates_of(listed_views(listing@), listing@.len() as int),
{
    let mut found: Vec<NewLog> = Vec::new();
    let mut i: usize = 0;
    while i < listing.len()
        invariant
            i <= listing@.len(),
            candidate_views(found@) == candidates_of(listed_views(listing@), i as int),
        decreases listing@.len() - i,
    {
        let item = &listing[i];
        if item.is_file && has_extension(item.path.as_str(), "ogg") {
            let caption = replace_extension(item.path.as_str(), "sub");
            let subs = if lists(listing, caption.as_str()) {
                Some(caption)
            } else {
                None
            };
            let log = NewLog { audio: item.path.clone(), subs };
            found.push(log);
        }
        i += 1;
    }
    found
}

/// The smaller of two lengths.
pub open spec fn smaller(a: nat, b: nat) -> nat {
    if a <= b {
        a
    } else {
        b
    }
}

/// The pairs of a randomization: as many as there are slots or candidates,
/// whichever are fewer; the `i`-th pair joins the `i`-th slot of
/// `slot_order` with the `i`-th candidate of `candidate_order`.
pub open spec fn pairing(
    slot_order: Seq<usize>,
    candidate_order: Seq<usize>,
    slots: Seq<Slot>,
    candidates: Seq<Candidate>,
) -> Seq<(Slot, Candidate)> {
    Seq::new(
        smaller(slots.len(), candidates.len()),
        |i: int| (slots[slot_order[i] as int], candidates[candidate_order[i] as int]),
    )
}

/// The sound insertion that gives `candidate`'s audio to `slot`.
pub open spec fn insertion_of(slot: Slot, candidate: Candidate) -> Insertion {
    Insertion { source_file: candidate.audio, dest_file: slot.filename }
}

/// Some pair's slot belongs to `destination`.
pub open spec fn has_group(pairs: Seq<(Slot, Candidate)>, destination: Destination) -> bool {
    exists|i: int| 0 <= i < pairs.len() && destination_of((#[trigger] pairs[i]).0) == destination
}

/// The insertions of the pairs whose slot belongs to `destination`, in the
/// order of the pairs.
pub open spec fn group_of(pairs: Seq<(Slot, Candidate)>, destination: Destination) -> Seq<
    Insertion,
>
    decreases pairs.len(),
{
    if pairs.len() == 0 {
        Seq::empty()
    } else {
        let earlier = group_of(pairs.drop_last(), destination);
        if destination_of(pairs.last().0) == destination {
            earlier.push(insertion_of(pairs.last().0, pairs.last().1))
        } else {
            earlier
        }
    }
}

/// The sound insertions that `pairs` call for: each destination that some
/// slot belongs to, with the insertions of its slots.
pub open spec fn sound_plan(pairs: Seq<(Slot, Candidate)>) -> Map<Destination, Seq<Insertion>> {
    Map::new(|d: Destination| has_group(pairs, d), |d: Destination| group_of(pairs, d))
}

/// The caption decisions that `pairs` call for: each slot's subtitle key
/// with the caption file of its candidate. Where two pairs share a key, the
/// later pair decides.
pub open spec fn subtitle_plan(pairs: Seq<(Slot, Candidate)>) -> Map<Seq<char>, Option<Seq<char>>>
    decreases pairs.len(),
{
    if pairs.len() == 0 {
        Map::empty()
    } else {
        subtitle_plan(pairs.drop_last()).insert(pairs.last().0.subtitle, pairs.last().1.subs)
    }
}

/// One more pair adds one insertion to the sound plan.
pub proof fn lemma_sound_plan_push(pairs: Seq<(Slot, Candidate)>, slot: Slot, candidate: Candidate)
    ensures
        sound_plan(pairs.push((slot, candidate))) == with_insertion(
            sound_plan(pairs),
            destination_of(slot),
            insertion_of(slot, candidate),
        ),
{
    let more = pairs.push((slot, candidate));
    let d0 = destination_of(slot);
    assert(more.drop_last() =~= pairs);
    assert forall|d: Destination| has_group(more, d) <==> (d == d0 || has_group(pairs, d)) by {
        if has_group(more, d) {
            let i = choose|i: int| 0 <= i < more.len() && destination_of((#[trigger] more[i]).0) == d;
        }
        if d == d0 {
            assert(destination_of(more[pairs.len() as int].0) == d);
        }
        if has_group(pairs, d) {
            let i = choose|i: int|
                0 <= i < pairs.len() && destination_of((#[trigger] pairs[i]).0) == d;
        }
    }
    if !has_group(pairs, d0) {
        lemma_group_without(pairs, d0);
    }
}

/// A destination that no slot belongs to has no insertions.
pub proof fn lemma_group_without(pairs: Seq<(Slot, Candidate)>, destination: Destination)
    requires
        !has_group(pairs, destination),
    ensures
        group_of(pairs, destination) == Seq::<Insertion>::empty(),
    decreases pairs.len(),
{
    if pairs.len() > 0 {
        lemma_group_without(pairs.drop_last(), destination);
    }
}

/// Builds the insertion plan that pairs slots and candidates in the given
/// orders.
///
/// The plan's first part holds the sound insertions by destination, its
/// second part the caption decisions by subtitle key. With no slots or no
/// candidates both parts are empty.
pub fn pair_up(
    slot_order: &Vec<usize>,
    candidate_order: &Vec<usize>,
    slots: &Vec<AudioLog>,
    candidates: &Vec<NewLog>,
) -> (plan: (SoundInsertionMap, SubsInsertionMap))
    requires
        is_order(slot_order@, slots@.len()),
        is_order(candidate_order@, candidates@.len()),
    ensures
        plan.0@ == sound_plan(
            pairing(slot_order@, candidate_order@, slot_views(slots@), candidate_views(candidates@)),
        ),
        plan.1@ == subtitle_plan(
            pairing(slot_order@, candidate_order@, slot_views(slots@), candidate_views(candidates@)),
        ),
{
    let count: usize = if slots.len() <= candidates.len() {
        slots.len()
    } else {
        candidates.len()
    };
    let ghost pairs = pairing(
        slot_order@,
        candidate_order@,
        slot_views(slots@),
        candidate_views(candidates@),
    );
    let mut sounds = SoundInsertionMap::new();
    let mut captions = SubsInsertionMap::new();
    let mut i: usize = 0;
    while i < count
        invariant
            i <= count,
            count == pairs.len(),
            count <= slots@.len(),
            count <= candidates@.len(),
            is_order(slot_order@, slots@.len()),
            is_order(candidate_order@, candidates@.len()),
            pairs == pairing(
                slot_order@,
                candidate_order@,
                slot_views(slots@),
                candidate_views(candidates@),
            ),
            sounds@ == sound_plan(pairs.take(i as int)),
            captions@ == subtitle_plan(pairs.take(i as int)),
        decreases count - i,
    {
        let slot = &slots[slot_order[i]];
        let candidate = &candidates[candidate_order[i]];
        let destination = slot.destination();
        let insertion = SoundInsertion {
            source_file: candidate.audio.clone(),
            dest_file: slot.filename.clone(),
        };
        proof {
            let earlier = pairs.take(i as int);
            let next = pairs.take(i + 1);
            assert(next =~= earlier.push((slot@, candidate@)));
            assert(next.drop_last() =~= earlier);
            lemma_sound_plan_push(earlier, slot@, candidate@);
        }
        sounds.add(destination, insertion);
        captions.insert(slot.subtitle.clone(), clone_opt(&candidate.subs));
        i += 1;
    }
    assert(pairs.take(count as int) =~= pairs);
    (sounds, captions)
}

/// The pairs that give one candidate to every slot, in catalog order.
pub open spec fn same_for_all(slots: Seq<Slot>, candidate: Candidate) -> Seq<(Slot, Candidate)> {
    Seq::new(slots.len(), |i: int| (slots[i], candidate))
}

/// Builds the insertion plan that puts one candidate into every slot of the
/// catalog.
pub fn give_to_all(candidate: &NewLog, catalog: &Vec<AudioLog>) -> (plan: (
    SoundInsertionMap,
    SubsInsertionMap,
))
    ensures
        plan.0@ == sound_plan(same_for_all(slot_views(catalog@), candidate@)),
        plan.1@ == subtitle_plan(same_for_all(slot_views(catalog@), candidate@)),
{
    let ghost pairs = same_for_all(slot_views(catalog@), candidate@);
    let mut sounds = SoundInsertionMap::new();
    let mut captions = SubsInsertionMap::new();
    let mut i: usize = 0;
    while i < catalog.len()
        invariant
            i <= catalog@.len(),
            pairs == same_for_all(slot_views(catalog@), candidate@),
            sounds@ == sound_plan(pairs.take(i as int)),
            captions@ == subtitle_plan(pairs.take(i as int)),
        decreases catalog@.len() - i,
    {
        let slot = &catalog[i];
        let insertion = SoundInsertion {
            source_file: candidate.audio.clone(),
            dest_file: slot.filename.clone(),
        };
        proof {
            let earlier = pairs.take(i as int);
            let next = pairs.take(i + 1);
            assert(next =~= earlier.push((slot@, candidate@)));
            assert(next.drop_last() =~= earlier);
            lemma_sound_plan_push(earlier, slot@, candidate@);
        }
        sounds.add(slot.destination(), insertion);
        captions.insert(slot.subtitle.clone(), clone_opt(&candidate.subs));
        i += 1;
    }
    assert(pairs.take(catalog@.len() as int) =~= pairs);
    (sounds, captions)
}

/// The pairs that a randomization with `seed` makes of the given slots and
/// candidates.
pub open spec fn randomized_pairs(seed: u64, slots: Seq<Slot>, candidates: Seq<Candidate>) -> Seq<
    (Slot, Candidate),
> {
    let orders = shuffled_orders(seed, slots.len(), candidates.len());
    pairing(orders.0, orders.1, slots, candidates)
}

/// Pairs candidates with catalog slots in an order drawn from `seed`.
///
/// A generator seeded with `seed` shuffles the slots and then the
/// candidates. The first slot takes the first candidate, and so on, until
/// the slots or the candidates run out. The result holds the sound
/// insertions by destination and the caption decisions by subtitle key.
/// Slots that took no candidate appear in neither.
pub fn randomize(seed: u64, candidates: &Vec<NewLog>, catalog: &Vec<AudioLog>) -> (plan: (
    SoundInsertionMap,
    SubsInsertionMap,
))
    ensures
        plan.0@ == sound_plan(
            randomized_pairs(seed, slot_views(catalog@), candidate_views(candidates@)),
        ),
        plan.1@ == subtitle_plan(
            randomized_pairs(seed, slot_views(catalog@), candidate_views(candidates@)),
        ),
        is_order(
            shuffled_orders(seed, catalog@.len(), candidates@.len()).0,
            catalog@.len(),
        ),
        is_order(
            shuffled_orders(seed, catalog@.len(), candidates@.len()).1,
            candidates@.len(),
        ),
        locations_distinct(slot_views(catalog@)) && subtitles_distinct(slot_views(catalog@)) ==> {
            &&& served_slots(plan.0@, slot_views(catalog@)).finite()
            &&& served_slots(plan.0@, slot_views(catalog@)).len() == smaller(
                catalog@.len(),
                candidates@.len(),
            )
            &&& forall|j: int|
                0 <= j < catalog@.len() ==> (receives_sound(
                    plan.0@,
                    #[trigger] slot_views(catalog@)[j],
                ) <==> plan.1@.dom().contains(slot_views(catalog@)[j].subtitle))
        },
{
    let orders = draw_orders(seed, catalog.len(), candidates.len());
    proof {
        let slots = slot_views(catalog@);
        if locations_distinct(slots) && subtitles_distinct(slots) {
            lemma_chosen_slots_served(orders.0@, orders.1@, slots, candidate_views(candidates@));
        }
    }
    pair_up(&orders.0, &orders.1, catalog, candidates)
}

/// Equal seeds, equal catalogs and equal candidates give equal plans.
pub proof fn lemma_randomize_deterministic(
    seed_a: u64,
    seed_b: u64,
    slots_a: Seq<Slot>,
    slots_b: Seq<Slot>,
    candidates_a: Seq<Candidate>,
    candidates_b: Seq<Candidate>,
)
    requires
        seed_a == seed_b,
        slots_a == slots_b,
        candidates_a == candidates_b,
    ensures
        sound_plan(randomized_pairs(seed_a, slots_a, candidates_a)) == sound_plan(
            randomized_pairs(seed_b, slots_b, candidates_b),
        ),
        subtitle_plan(randomized_pairs(seed_a, slots_a, candidates_a)) == subtitle_plan(
            randomized_pairs(seed_b, slots_b, candidates_b),
        ),
{
}

/// The sound plan has an insertion that replaces `slot`.
pub open spec fn receives_sound(sounds: Map<Destination, Seq<Insertion>>, slot: Slot) -> bool {
    &&& sounds.dom().contains(destination_of(slot))
    &&& exists|k: int|
        0 <= k < sounds[destination_of(slot)].len() && (#[trigger] sounds[destination_of(
            slot,
        )][k]).dest_file == slot.filename
}

/// The slot at position `j` of the catalog is among the first `count` of
/// `slot_order`.
pub open spec fn chosen(slot_order: Seq<usize>, count: nat, j: int) -> bool {
    exists|i: int| 0 <= i < count && #[trigger] slot_order[i] == j
}

/// The positions of the slots that the sound plan replaces.
pub open spec fn served_slots(sounds: Map<Destination, Seq<Insertion>>, slots: Seq<Slot>) -> Set<
    int,
> {
    Set::new(|j: int| 0 <= j < slots.len() && receives_sound(sounds, slots[j]))
}

/// Some pair's slot is the file `filename` of `destination`.
pub open spec fn targets(
    pairs: Seq<(Slot, Candidate)>,
    destination: Destination,
    filename: Seq<char>,
) -> bool {
    exists|i: int|
        0 <= i < pairs.len() && destination_of((#[trigger] pairs[i]).0) == destination
            && pairs[i].0.filename == filename
}

/// Some insertion of the group of `destination` replaces the file
/// `filename`.
pub open spec fn group_replaces(
    pairs: Seq<(Slot, Candidate)>,
    destination: Destination,
    filename: Seq<char>,
) -> bool {
    exists|k: int|
        0 <= k < group_of(pairs, destination).len() && (#[trigger] group_of(
            pairs,
            destination,
        )[k]).dest_file == filename
}

/// A group replaces exactly the files of the slots that belong to it.
pub proof fn lemma_group_replaces(
    pairs: Seq<(Slot, Candidate)>,
    destination: Destination,
    filename: Seq<char>,
)
    ensures
        group_replaces(pairs, destination, filename) <==> targets(pairs, destination, filename),
    decreases pairs.len(),
{
    if pairs.len() > 0 {
        let shorter = pairs.drop_last();
        let last = pairs.last();
        lemma_group_replaces(shorter, destination, filename);
        let g = group_of(pairs, destination);
        let g0 = group_of(shorter, destination);
        if group_replaces(pairs, destination, filename) {
            let k = choose|k: int| 0 <= k < g.len() && (#[trigger] g[k]).dest_file == filename;
            if k < g0.len() {
                let i = choose|i: int|
                    0 <= i < shorter.len() && destination_of((#[trigger] shorter[i]).0)
                        == destination && shorter[i].0.filename == filename;
            }
        }
        if targets(pairs, destination, filename) {
            let i = choose|i: int|
                0 <= i < pairs.len() && destination_of((#[trigger] pairs[i]).0) == destination
                    && pairs[i].0.filename == filename;
            if i < shorter.len() {
                assert(shorter[i] == pairs[i]);
                let k = choose|k: int|
                    0 <= k < g0.len() && (#[trigger] g0[k]).dest_file == filename;
                assert(g[k] == g0[k]);
            } else {
                assert(g[g.len() - 1].dest_file == filename);
            }
        }
    }
}

/// The caption plan decides exactly the subtitle keys of the pairs' slots.
pub proof fn lemma_subtitle_plan_keys(pairs: Seq<(Slot, Candidate)>, key: Seq<char>)
    ensures
        subtitle_plan(pairs).dom().contains(key) <==> exists|i: int|
            0 <= i < pairs.len() && (#[trigger] pairs[i]).0.subtitle == key,
    decreases pairs.len(),
{
    if pairs.len() > 0 {
        let shorter = pairs.drop_last();
        lemma_subtitle_plan_keys(shorter, key);
        if exists|i: int| 0 <= i < pairs.len() && (#[trigger] pairs[i]).0.subtitle == key {
            let i = choose|i: int| 0 <= i < pairs.len() && (#[trigger] pairs[i]).0.subtitle == key;
            if i < shorter.len() {
                assert(shorter[i] == pairs[i]);
            }
        }
    }
}

/// Where no two pairs share a subtitle key, each key is mapped to the
/// caption file of its own pair's candidate.
pub proof fn lemma_subtitle_plan_value(pairs: Seq<(Slot, Candidate)>, i: int)
    requires
        0 <= i < pairs.len(),
        forall|a: int, b: int|
            0 <= a < b < pairs.len() ==> (#[trigger] pairs[a]).0.subtitle != (
            #[trigger] pairs[b]).0.subtitle,
    ensures
        subtitle_plan(pairs).dom().contains(pairs[i].0.subtitle),
        subtitle_plan(pairs)[pairs[i].0.subtitle] == pairs[i].1.subs,
    decreases pairs.len(),
{
    let shorter = pairs.drop_last();
    if i < pairs.len() - 1 {
        lemma_subtitle_plan_value(shorter, i);
    }
}

/// The positions among the first `count` of an order are `count` many.
pub proof fn lemma_chosen_count(slot_order: Seq<usize>, n: nat, count: nat)
    requires
        is_order(slot_order, n),
        count <= n,
    ensures
        Set::new(|j: int| chosen(slot_order, count, j)).finite(),
        Set::new(|j: int| chosen(slot_order, count, j)).len() == count,
    decreases count,
{
    let now = Set::new(|j: int| chosen(slot_order, count, j));
    if count == 0 {
        assert(now =~= Set::<int>::empty());
    } else {
        let fewer = (count - 1) as nat;
        let earlier = Set::new(|j: int| chosen(slot_order, fewer, j));
        lemma_chosen_count(slot_order, n, fewer);
        let added = slot_order[count - 1] as int;
        assert(!earlier.contains(added)) by {
            if chosen(slot_order, fewer, added) {
                let i = choose|i: int| 0 <= i < fewer && #[trigger] slot_order[i] == added;
            }
        }
        assert forall|j: int| now.contains(j) <==> earlier.insert(added).contains(j) by {
            if chosen(slot_order, count, j) {
                let i = choose|i: int| 0 <= i < count && #[trigger] slot_order[i] == j;
            }
            if chosen(slot_order, fewer, j) {
                let i = choose|i: int| 0 <= i < fewer && #[trigger] slot_order[i] == j;
            }
        }
        assert(now =~= earlier.insert(added));
    }
}

/// Exactly the chosen slots are served.
///
/// Let the catalog hold no two slots at the same place and no two slots
/// with the same subtitle key, and let there be `count` pairs: as many as
/// there are slots or candidates, whichever are fewer. Then `count` slots
/// receive a sound insertion, namely the first `count` of the slot order;
/// the caption plan decides the subtitle keys of those slots and no
/// others; and each such key is mapped to the caption file of the
/// candidate that the slot was paired with. Every other slot is absent
/// from both plans.
pub proof fn lemma_chosen_slots_served(
    slot_order: Seq<usize>,
    candidate_order: Seq<usize>,
    slots: Seq<Slot>,
    candidates: Seq<Candidate>,
)
    requires
        is_order(slot_order, slots.len()),
        is_order(candidate_order, candidates.len()),
        locations_distinct(slots),
        subtitles_distinct(slots),
    ensures
        ({
            let pairs = pairing(slot_order, candidate_order, slots, candidates);
            let count = smaller(slots.len(), candidates.len());
            &&& forall|j: int|
                0 <= j < slots.len() ==> (receives_sound(sound_plan(pairs), #[trigger] slots[j])
                    <==> chosen(slot_order, count, j))
            &&& forall|j: int|
                0 <= j < slots.len() ==> (subtitle_plan(pairs).dom().contains(
                    (#[trigger] slots[j]).subtitle,
                ) <==> chosen(slot_order, count, j))
            &&& served_slots(sound_plan(pairs), slots).finite()
            &&& served_slots(sound_plan(pairs), slots).len() == count
            &&& forall|i: int|
                0 <= i < count ==> subtitle_plan(pairs)[(#[trigger] pairs[i]).0.subtitle]
                    == pairs[i].1.subs
        }),
{
    let pairs = pairing(slot_order, candidate_order, slots, candidates);
    let count = smaller(slots.len(), candidates.len());
    let sounds = sound_plan(pairs);
    assert forall|j: int| 0 <= j < slots.len() implies (receives_sound(
        sounds,
        #[trigger] slots[j],
    ) <==> chosen(slot_order, count, j)) by {
        let slot = slots[j];
        let d = destination_of(slot);
        lemma_group_replaces(pairs, d, slot.filename);
        if receives_sound(sounds, slot) {
            let k = choose|k: int|
                0 <= k < sounds[d].len() && (#[trigger] sounds[d][k]).dest_file == slot.filename;
            let i = choose|i: int|
                0 <= i < pairs.len() && destination_of((#[trigger] pairs[i]).0) == d
                    && pairs[i].0.filename == slot.filename;
            let other = slot_order[i] as int;
            if other != j {
                if other < j {
                    assert(!(slots[other].package == slots[j].package && slots[other].filename
                        == slots[j].filename));
                } else {
                    assert(!(slots[j].package == slots[other].package && slots[j].filename
                        == slots[other].filename));
                }
            }
        }
        if chosen(slot_order, count, j) {
            let i = choose|i: int| 0 <= i < count && #[trigger] slot_order[i] == j;
            assert(pairs[i].0 == slot);
            let k = choose|k: int|
                0 <= k < group_of(pairs, d).len() && (#[trigger] group_of(pairs, d)[k]).dest_file
                    == slot.filename;
        }
    }
    assert forall|j: int| 0 <= j < slots.len() implies (subtitle_plan(pairs).dom().contains(
        (#[trigger] slots[j]).subtitle,
    ) <==> chosen(slot_order, count, j)) by {
        let key = slots[j].subtitle;
        lemma_subtitle_plan_keys(pairs, key);
        if subtitle_plan(pairs).dom().contains(key) {
            let i = choose|i: int| 0 <= i < pairs.len() && (#[trigger] pairs[i]).0.subtitle == key;
        }
        if chosen(slot_order, count, j) {
            let i = choose|i: int| 0 <= i < count && #[trigger] slot_order[i] == j;
            assert(pairs[i].0.subtitle == key);
        }
    }
    lemma_chosen_count(slot_order, slots.len(), count);
    assert(served_slots(sounds, slots) =~= Set::new(|j: int| chosen(slot_order, count, j))) by {
        assert forall|j: int| chosen(slot_order, count, j) implies 0 <= j < slots.len() by {
            let i = choose|i: int| 0 <= i < count && #[trigger] slot_order[i] == j;
        }
    }
    assert forall|i: int| 0 <= i < count implies subtitle_plan(pairs)[(
    #[trigger] pairs[i]).0.subtitle] == pairs[i].1.subs by {
        lemma_subtitle_plan_value(pairs, i);
    }
}

} // verus!
