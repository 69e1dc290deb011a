//! The listing of a project directory, assembled from what a walk of the
//! directory and its immediate children found.

use crate::identifier::{hash_path, identifier_of};
use crate::path_text::{last_segment, segment_name};
use vstd::prelude::*;

verus! {

/// How deep a walk for a listing goes below its root: the root's immediate
/// children and no further.
pub const WALK_DEPTH: usize = 1;

/// One file or directory directly below the root of a listing.
pub struct ProjectEntry {
    pub name: String,
    pub path: String,
    pub hash: String,
    pub is_file: bool,
    pub parent_hash: String,
}

/// What a `ProjectEntry` holds, as plain text.
pub struct EntryView {
    pub name: Seq<char>,
    pub path: Seq<char>,
    pub hash: Seq<char>,
    pub is_file: bool,
    pub parent_hash: Seq<char>,
}

impl View for ProjectEntry {
    type V = EntryView;

    open spec fn view(&self) -> EntryView {
        EntryView {
            name: self.name@,
            path: self.path@,
            hash: self.hash@,
            is_file: self.is_file,
            parent_hash: self.parent_hash@,
        }
    }
}

/// A root directory and the entries directly below it, in the order in which
/// the walk met them.
pub struct ProjectStructure {
    pub name: String,
    pub root_path: String,
    pub root_hash: String,
    pub files: Vec<ProjectEntry>,
}

/// What a `ProjectStructure` holds, as plain text.
pub struct StructureView {
    pub name: Seq<char>,
    pub root_path: Seq<char>,
    pub root_hash: Seq<char>,
    pub files: Seq<EntryView>,
}

impl View for ProjectStructure {
    type V = StructureView;

    open spec fn view(&self) -> StructureView {
        StructureView {
            name: self.name@,
            root_path: self.root_path@,
            root_hash: self.root_hash@,
            files: self.files@.map_values(|entry: ProjectEntry| entry@),
        }
    }
}

/// What a walk read of one path: its text, the text of its parent path where
/// it has one, and whether a regular file was there when the walk looked.
pub struct WalkedEntry {
    pub path: String,
    pub parent: Option<String>,
    pub is_file: bool,
}

/// One step of a walk: a path that was read, or one that could not be.
pub enum WalkEvent {
    Found(WalkedEntry),
    Failed,
}

/// The listing in which nothing was found: every field empty.
pub open spec fn empty_structure() -> StructureView {
    StructureView {
        name: Seq::empty(),
        root_path: Seq::empty(),
        root_hash: Seq::empty(),
        files: Seq::empty(),
    }
}

/// The listing of a path that has not been walked: named after its last
/// segment, without identifier and without entries.
pub open spec fn unscanned(path: Seq<char>) -> StructureView {
    StructureView {
        name: last_segment(path),
        root_path: path,
        root_hash: Seq::empty(),
        files: Seq::empty(),
    }
}

/// The entry that a walked path with a parent becomes.
pub open spec fn entry_of(walked: WalkedEntry) -> EntryView
    recommends
        walked.parent is Some,
{
    EntryView {
        name: last_segment(walked.path@),
        path: walked.path@,
        hash: identifier_of(walked.path@),
        is_file: walked.is_file,
        parent_hash: identifier_of(walked.parent->0@),
    }
}

/// The paths that a walk read, in order, with the failures left out.
pub open spec fn found_entries(events: Seq<WalkEvent>) -> Seq<WalkedEntry>
    decreases events.len(),
{
    if events.len() == 0 {
        Seq::empty()
    } else {
        match events.last() {
            WalkEvent::Found(walked) => found_entries(events.drop_last()).push(walked),
            WalkEvent::Failed => found_entries(events.drop_last()),
        }
    }
}

/// How many steps of a walk failed.
pub open spec fn failed_count(events: Seq<WalkEvent>) -> nat
    decreases events.len(),
{
    if events.len() == 0 {
        0
    } else {
        failed_count(events.drop_last()) + if events.last() is Failed {
            1nat
        } else {
            0nat
        }
    }
}

/// The entries of a listing: every path found after the first.
pub open spec fn entries_of(found: Seq<WalkedEntry>) -> Seq<EntryView> {
    Seq::new((found.len() - 1) as nat, |i: int| entry_of(found[i + 1]))
}

/// Whether every path found after the first tells its parent.
pub open spec fn children_have_parents(events: Seq<WalkEvent>) -> bool {
    forall|i: int| 1 <= i < found_entries(events).len() ==> (#[trigger] found_entries(events)[i]).parent is Some
}

/// The listing that a walk gives: the first path found is the root, the
/// others are its entries; where nothing was found the listing is empty.
pub open spec fn structure_of(events: Seq<WalkEvent>) -> StructureView {
    let found = found_entries(events);
    if found.len() == 0 {
        empty_structure()
    } else {
        StructureView {
            name: last_segment(found[0].path@),
            root_path: found[0].path@,
            root_hash: identifier_of(found[0].path@),
            files: entries_of(found),
        }
    }
}

/// What was found in the first `n` steps of a walk is the start of what was
/// found in all of it.
pub proof fn lemma_found_prefix(events: Seq<WalkEvent>, n: int)
    requires
        0 <= n <= events.len(),
    ensures
        found_entries(events.take(n)).len() <= found_entries(events).len(),
        found_entries(events.take(n)) == found_entries(events).take(
            found_entries(events.take(n)).len() as int,
        ),
    decreases events.len(),
{
    if n == events.len() {
        assert(events.take(n) =~= events);
        assert(found_entries(events) =~= found_entries(events).take(
            found_entries(events).len() as int,
        ));
    } else {
        let front = events.drop_last();
        assert(front.take(n) =~= events.take(n));
        lemma_found_prefix(front, n);
        assert(found_entries(events.take(n)) =~= found_entries(events).take(
            found_entries(events.take(n)).len() as int,
        ));
    }
}

/// What two walks found, one after the other, is what the joined walk finds.
pub proof fn lemma_found_concat(first: Seq<WalkEvent>, second: Seq<WalkEvent>)
    ensures
        found_entries(first + second) == found_entries(first) + found_entries(second),
    decreases second.len(),
{
    if second.len() == 0 {
        assert(first + second =~= first);
        assert(found_entries(first) + found_entries(second) =~= found_entries(first));
    } else {
        let front = second.drop_last();
        assert((first + second).drop_last() =~= first + front);
        assert((first + second).last() == second.last());
        lemma_found_concat(first, front);
        assert(found_entries(first + second) =~= found_entries(first) + found_entries(second));
    }
}

/// Every step of a walk either found a path or failed.
pub proof fn lemma_found_or_failed(events: Seq<WalkEvent>)
    ensures
        found_entries(events).len() + failed_count(events) == events.len(),
    decreases events.len(),
{
    if events.len() > 0 {
        lemma_found_or_failed(events.drop_last());
    }
}

/// A walk that reads its root lists exactly the children that it could read:
/// as many entries as steps below the root, less those that failed.
pub proof fn lemma_failed_children_dropped(root: WalkedEntry, children: Seq<WalkEvent>)
    ensures
        structure_of(seq![WalkEvent::Found(root)] + children).files.len() == found_entries(
            children,
        ).len(),
        structure_of(seq![WalkEvent::Found(root)] + children).files.len() + failed_count(children)
            == children.len(),
        structure_of(seq![WalkEvent::Found(root)] + children).root_path == root.path@,
{
    let head = seq![WalkEvent::Found(root)];
    assert(head.drop_last() =~= Seq::<WalkEvent>::empty());
    assert(found_entries(head.drop_last()) =~= Seq::<WalkedEntry>::empty());
    assert(found_entries(head) =~= seq![root]);
    lemma_found_concat(head, children);
    lemma_found_or_failed(children);
}

/// A walk in which every step failed, or which made no step, gives the empty
/// listing.
pub proof fn lemma_nothing_found_is_empty(events: Seq<WalkEvent>)
    requires
        forall|i: int| 0 <= i < events.len() ==> events[i] is Failed,
    ensures
        structure_of(events) == empty_structure(),
    decreases events.len(),
{
    if events.len() > 0 {
        lemma_nothing_found_is_empty(events.drop_last());
    }
}

/// An entry whose parent path is the root path of the listing carries the
/// root's identifier as the identifier of its parent.
pub proof fn lemma_child_of_root_shares_identifier(events: Seq<WalkEvent>, i: int)
    requires
        0 <= i < structure_of(events).files.len(),
        found_entries(events)[i + 1].parent is Some,
        found_entries(events)[i + 1].parent->0@ == found_entries(events)[0].path@,
    ensures
        structure_of(events).files[i].parent_hash == structure_of(events).root_hash,
{
}

impl From<String> for ProjectStructure {
    /// The listing of a path before any walk: the name is the path's last
    /// segment, the identifier and the entries are empty.
    fn from(path: String) -> (structure: ProjectStructure)
        ensures
            structure@ == unscanned(path@),
    {
        let name = segment_name(path.as_str());
        let structure = ProjectStructure {
            name,
            root_path: path,
            root_hash: String::new(),
            files: Vec::new(),
        };
        assert(structure@.files =~= Seq::<EntryView>::empty());
        structure
    }
}

/// What `from` gives is stated on `from` itself, over the listing's view: no
/// listing can be written down as a value in a contract.
impl vstd::std_specs::convert::FromSpecImpl<String> for ProjectStructure {
    open spec fn obeys_from_spec() -> bool {
        false
    }

    open spec fn from_spec(path: String) -> ProjectStructure {
        arbitrary()
    }
}

impl ProjectEntry {
    /// The entry for a walked path: named after its last segment, identified
    /// by its path, and tied to its parent by the parent path's identifier.
    /// A path that tells no parent has no entry.
    pub fn from_walked(walked: &WalkedEntry) -> (made: Option<ProjectEntry>)
        ensures
            made is Some <==> walked.parent is Some,
            made is Some ==> made->0@ == entry_of(*walked),
    {
        match &walked.parent {
            Some(parent) => {
                let name = segment_name(walked.path.as_str());
                let hash = hash_path(walked.path.clone());
                let parent_hash = hash_path(parent.clone());
                Some(
                    ProjectEntry {
                        name,
                        path: walked.path.clone(),
                        hash,
                        is_file: walked.is_file,
                        parent_hash,
                    },
                )
            },
            None => None,
        }
    }
}

impl ProjectStructure {
    /// The listing with every field empty.
    pub fn empty() -> (structure: ProjectStructure)
        ensures
            structure@ == empty_structure(),
    {
        let structure = ProjectStructure {
            name: String::new(),
            root_path: String::new(),
            root_hash: String::new(),
            files: Vec::new(),
        };
        assert(structure@.files =~= Seq::<EntryView>::empty());
        structure
    }

    /// Assembles the listing from the steps of a walk. Steps that failed are
    /// left out. The first path found is taken for the root, every later one
    /// becomes an entry, in the order of the walk. A walk that found nothing
    /// gives the empty listing: a root that is not there and a root that
    /// cannot be read look alike. There is no listing where a path found
    /// after the first tells no parent.
    pub fn from_walk(events: &Vec<WalkEvent>) -> (listing: Option<ProjectStructure>)
        ensures
            listing is Some <==> children_have_parents(events@),
            listing is Some ==> listing->0@ == structure_of(events@),
    {
        let mut structure = ProjectStructure::empty();
        let mut root_seen = false;
        let mut i: usize = 0;
        while i < events.len()
            invariant
                i <= events.len(),
                children_have_parents(events@.take(i as int)),
                root_seen == (found_entries(events@.take(i as int)).len() > 0),
                structure@ == structure_of(events@.take(i as int)),
            decreases events.len() - i,
        {
            let ghost before = events@.take(i as int);
            let ghost after = events@.take(i + 1);
            proof {
                assert(after.drop_last() =~= before);
                assert(after.last() == events@[i as int]);
                lemma_found_prefix(events@, i + 1);
            }
            match &events[i] {
                WalkEvent::Found(walked) => {
                    assert(found_entries(after) == found_entries(before).push(*walked));
                    if root_seen {
                        let ghost listed = structure@.files;
                        assert(listed == entries_of(found_entries(before)));
                        match ProjectEntry::from_walked(walked) {
                            Some(entry) => {
                                structure.files.push(entry);
                                assert forall|j: int| 0 <= j < listed.len() implies structure@.files[j]
                                    == entries_of(found_entries(after))[j] by {
                                    assert(structure@.files[j] == listed[j]);
                                }
                                assert(structure@.files =~= entries_of(found_entries(after)));
                            },
                            None => {
                                assert(found_entries(events@)[found_entries(before).len() as int]
                                    == found_entries(after)[found_entries(before).len() as int]);
                                return None;
                            },
                        }
                    } else {
                        structure.name = segment_name(walked.path.as_str());
                        structure.root_hash = hash_path(walked.path.clone());
                        structure.root_path = walked.path.clone();
                        root_seen = true;
                        assert(structure@.files =~= entries_of(found_entries(after)));
                    }
                },
                WalkEvent::Failed => {},
            }
            i += 1;
        }
        assert(events@.take(events@.len() as int) =~= events@);
        Some(structure)
    }
}

} // verus!
