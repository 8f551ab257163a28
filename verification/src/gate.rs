//! The compatibility gate: the fingerprints of the registered types, held
//! against the stored snapshot.

use crate::descriptor::{TypeDescriptor, TypeIdentity};
use crate::fingerprint::{compute_hash, type_hash, InProgress};
use crate::registry::Registry;
use crate::snapshot::{
    lemma_rows_map_dom, lemma_rows_map_index, rows_map, rows_of, sorted, Snapshot,
};
use vstd::prelude::*;
use vstd::string::StringExecFns;

verus! {

/// The fingerprint of a registered type, computed from the top: nothing is
/// in progress when it is entered.
pub open spec fn fingerprint(reg: Seq<TypeDescriptor>, id: int) -> u32 {
    type_hash(reg, id, Set::empty())
}

/// The fingerprints of the first `n` registered types under their declared
/// names. Where two of them share a name, the one registered later stays.
pub open spec fn current_map(reg: Seq<TypeDescriptor>, n: int) -> Map<Seq<char>, u32>
    decreases n,
{
    if n <= 0 {
        Map::empty()
    } else {
        current_map(reg, n - 1).insert(reg[n - 1].spec_name(), fingerprint(reg, n - 1))
    }
}

/// Computes the fingerprint of every registered type, each from the top, and
/// collects them under the declared names.
pub fn current_hashes(registry: &Registry) -> (current: Snapshot)
    ensures
        current@ == current_map(registry@, registry@.len() as int),
        sorted(current.rows()),
{
    let mut current = Snapshot::new();
    let mut i: usize = 0;
    while i < registry.len()
        invariant
            i <= registry@.len(),
            current@ == current_map(registry@, i as int),
            sorted(current.rows()),
        decreases registry@.len() - i,
    {
        let id = TypeIdentity(i);
        let mut types_in_compute = InProgress::new(registry);
        let hash = compute_hash(id, registry, &mut types_in_compute);
        let name = String::from_str(registry.descriptor(id).name());
        current.insert(name, hash);
        i += 1;
    }
    current
}

/// One finding of a comparison.
#[derive(Clone, Debug, PartialEq, Eq)]
pub enum Change {
    /// The name is stored and current, with different fingerprints.
    Mismatch { name: String, stored: u32, current: u32 },
    /// The name is current and not stored.
    Added { name: String, hash: u32 },
    /// The name is stored and no longer current.
    Removed { name: String },
}

/// A finding as plain values.
pub enum ChangeView {
    Mismatch { name: Seq<char>, stored: u32, current: u32 },
    Added { name: Seq<char>, hash: u32 },
    Removed { name: Seq<char> },
}

impl View for Change {
    type V = ChangeView;

    open spec fn view(&self) -> ChangeView {
        match *self {
            Change::Mismatch { name, stored, current } => ChangeView::Mismatch {
                name: name@,
                stored,
                current,
            },
            Change::Added { name, hash } => ChangeView::Added { name: name@, hash },
            Change::Removed { name } => ChangeView::Removed { name: name@ },
        }
    }
}

/// A run of findings as plain values.
pub open spec fn views(changes: Seq<Change>) -> Seq<ChangeView> {
    Seq::new(changes.len(), |i: int| changes[i]@)
}

/// What the current lines show against the stored mapping, line by line: a
/// mismatch where the name is stored with another fingerprint, an addition
/// where it is not stored, nothing where it is stored with the same one.
pub open spec fn changed_or_added(
    current: Seq<(Seq<char>, u32)>,
    stored: Map<Seq<char>, u32>,
) -> Seq<ChangeView>
    decreases current.len(),
{
    if current.len() == 0 {
        Seq::empty()
    } else {
        let earlier = changed_or_added(current.drop_last(), stored);
        let (name, hash) = current.last();
        if !stored.contains_key(name) {
            earlier.push(ChangeView::Added { name, hash })
        } else if stored[name] != hash {
            earlier.push(ChangeView::Mismatch { name, stored: stored[name], current: hash })
        } else {
            earlier
        }
    }
}

/// The stored lines whose name is not current, line by line.
pub open spec fn removed(
    stored: Seq<(Seq<char>, u32)>,
    current: Map<Seq<char>, u32>,
) -> Seq<ChangeView>
    decreases stored.len(),
{
    if stored.len() == 0 {
        Seq::empty()
    } else {
        let earlier = removed(stored.drop_last(), current);
        if !current.contains_key(stored.last().0) {
            earlier.push(ChangeView::Removed { name: stored.last().0 })
        } else {
            earlier
        }
    }
}

/// All that sets the current lines apart from the stored ones: first the
/// mismatches and additions in the order of the current names, then the
/// removals in the order of the stored names.
pub open spec fn differences(
    stored: Seq<(Seq<char>, u32)>,
    current: Seq<(Seq<char>, u32)>,
) -> Seq<ChangeView> {
    changed_or_added(current, rows_map(stored)) + removed(stored, rows_map(current))
}

/// No mismatch and no addition is found exactly where every current line is
/// stored as it stands.
pub proof fn lemma_nothing_changed_or_added(
    current: Seq<(Seq<char>, u32)>,
    stored: Map<Seq<char>, u32>,
)
    ensures
        changed_or_added(current, stored).len() == 0 <==> forall|i: int|
            0 <= i < current.len() ==> stored.contains_key(#[trigger] current[i].0) && stored[current[i].0]
                == current[i].1,
    decreases current.len(),
{
    if current.len() > 0 {
        let front = current.drop_last();
        lemma_nothing_changed_or_added(front, stored);
        let settled = |rows: Seq<(Seq<char>, u32)>|
            forall|i: int|
                0 <= i < rows.len() ==> stored.contains_key(#[trigger] rows[i].0) && stored[rows[i].0]
                    == rows[i].1;
        if settled(current) {
            assert forall|i: int| 0 <= i < front.len() implies stored.contains_key(
                #[trigger] front[i].0,
            ) && stored[front[i].0] == front[i].1 by {
                assert(front[i] == current[i]);
            }
            assert(stored.contains_key(current[current.len() - 1].0));
        }
        if changed_or_added(current, stored).len() == 0 {
            assert forall|i: int| 0 <= i < current.len() implies stored.contains_key(
                #[trigger] current[i].0,
            ) && stored[current[i].0] == current[i].1 by {
                if i < front.len() {
                    assert(front[i] == current[i]);
                }
            }
        }
    }
}

/// No removal is found exactly where every stored name is current.
pub proof fn lemma_nothing_removed(stored: Seq<(Seq<char>, u32)>, current: Map<Seq<char>, u32>)
    ensures
        removed(stored, current).len() == 0 <==> forall|i: int|
            0 <= i < stored.len() ==> current.contains_key(#[trigger] stored[i].0),
    decreases stored.len(),
{
    if stored.len() > 0 {
        let front = stored.drop_last();
        lemma_nothing_removed(front, current);
        if forall|i: int| 0 <= i < stored.len() ==> current.contains_key(#[trigger] stored[i].0) {
            assert forall|i: int| 0 <= i < front.len() implies current.contains_key(
                #[trigger] front[i].0,
            ) by {
                assert(front[i] == stored[i]);
            }
            assert(current.contains_key(stored[stored.len() - 1].0));
        }
        if removed(stored, current).len() == 0 {
            assert forall|i: int| 0 <= i < stored.len() implies current.contains_key(
                #[trigger] stored[i].0,
            ) by {
                if i < front.len() {
                    assert(front[i] == stored[i]);
                }
            }
        }
    }
}

/// Two sorted tables differ in nothing exactly where they stand for the
/// same mapping.
pub proof fn lemma_no_differences(stored: Seq<(Seq<char>, u32)>, current: Seq<(Seq<char>, u32)>)
    requires
        sorted(stored),
        sorted(current),
    ensures
        differences(stored, current).len() == 0 <==> rows_map(stored) == rows_map(current),
{
    let old_map = rows_map(stored);
    let new_map = rows_map(current);
    lemma_nothing_changed_or_added(current, old_map);
    lemma_nothing_removed(stored, new_map);
    if old_map == new_map {
        assert forall|i: int| 0 <= i < current.len() implies old_map.contains_key(
            #[trigger] current[i].0,
        ) && old_map[current[i].0] == current[i].1 by {
            lemma_rows_map_index(current, i);
        }
        assert forall|i: int| 0 <= i < stored.len() implies new_map.contains_key(
            #[trigger] stored[i].0,
        ) by {
            lemma_rows_map_index(stored, i);
        }
    }
    if differences(stored, current).len() == 0 {
        assert forall|q: Seq<char>| #[trigger] new_map.dom().contains(q) implies old_map.dom().contains(
            q,
        ) && old_map[q] == new_map[q] by {
            lemma_rows_map_dom(current, q);
            let i = choose|i: int| 0 <= i < current.len() && current[i] == (q, new_map[q]);
            assert(old_map.contains_key(current[i].0));
        }
        assert forall|q: Seq<char>| #[trigger] old_map.dom().contains(q) implies new_map.dom().contains(
            q,
        ) by {
            lemma_rows_map_dom(stored, q);
            let i = choose|i: int| 0 <= i < stored.len() && stored[i] == (q, old_map[q]);
            assert(new_map.contains_key(stored[i].0));
        }
        assert(old_map =~= new_map);
    }
}

/// Holds the current snapshot against the stored one and lists what sets
/// them apart: mismatches and additions by current name, then removals by
/// stored name. The list is empty exactly where the two bind the same names
/// to the same fingerprints.
pub fn compare(stored: &Snapshot, current: &Snapshot) -> (changes: Vec<Change>)
    ensures
        views(changes@) == differences(stored.rows(), current.rows()),
        changes@.len() == 0 <==> stored@ == current@,
{
    let mut changes: Vec<Change> = Vec::new();
    let now = current.entries();
    let then = stored.entries();
    let ghost now_rows = current.rows();
    let ghost then_rows = stored.rows();
    proof {
        stored.lemma_view();
        current.lemma_view();
        lemma_no_differences(then_rows, now_rows);
    }
    let mut i: usize = 0;
    while i < now.len()
        invariant
            i <= now.len(),
            now_rows == rows_of(now@),
            stored@ == rows_map(then_rows),
            views(changes@) == changed_or_added(now_rows.take(i as int), stored@),
        decreases now.len() - i,
    {
        let entry = &now[i];
        let ghost earlier = views(changes@);
        proof {
            assert(now_rows.take(i + 1).drop_last() =~= now_rows.take(i as int));
            assert(now_rows.take(i + 1).last() == (entry.name@, entry.hash));
        }
        match stored.get(entry.name.as_str()) {
            Some(hash) => {
                if hash != entry.hash {
                    let change = Change::Mismatch {
                        name: entry.name.clone(),
                        stored: hash,
                        current: entry.hash,
                    };
                    changes.push(change);
                    assert(views(changes@) =~= earlier.push(change@));
                }
            },
            None => {
                let change = Change::Added { name: entry.name.clone(), hash: entry.hash };
                changes.push(change);
                assert(views(changes@) =~= earlier.push(change@));
            },
        }
        i += 1;
    }
    let ghost first = views(changes@);
    proof {
        assert(now_rows.take(i as int) =~= now_rows);
    }
    let mut j: usize = 0;
    while j < then.len()
        invariant
            j <= then.len(),
            then_rows == rows_of(then@),
            current@ == rows_map(now_rows),
            views(changes@) == first + removed(then_rows.take(j as int), current@),
        decreases then.len() - j,
    {
        let entry = &then[j];
        let ghost earlier = views(changes@);
        proof {
            assert(then_rows.take(j + 1).drop_last() =~= then_rows.take(j as int));
            assert(then_rows.take(j + 1).last() == (entry.name@, entry.hash));
        }
        if current.get(entry.name.as_str()).is_none() {
            let change = Change::Removed { name: entry.name.clone() };
            changes.push(change);
            assert(views(changes@) =~= earlier.push(change@));
        }
        j += 1;
    }
    proof {
        assert(then_rows.take(j as int) =~= then_rows);
        assert(views(changes@).len() == changes@.len());
    }
    changes
}

/// What one run of the compatibility gate found.
pub struct GateReport {
    /// The findings, in the order in which they are reported.
    pub changes: Vec<Change>,
    /// The current snapshot, offered in place of the stored one. It is there
    /// exactly where something was found: a run without findings writes
    /// nothing.
    pub candidate: Option<Snapshot>,
}

impl GateReport {
    /// Whether anything was found.
    pub open spec fn spec_has_changes(&self) -> bool {
        self.changes@.len() > 0
    }

    /// Whether anything was found.
    #[verifier::when_used_as_spec(spec_has_changes)]
    pub fn has_changes(&self) -> (found: bool)
        ensures
            found == self.spec_has_changes(),
    {
        self.changes.len() > 0
    }

    /// The exit status that the run asks for: 0 without findings, 1 with
    /// any.
    pub fn exit_code(&self) -> (code: i32)
        ensures
            code == if self.spec_has_changes() {
                1i32
            } else {
                0i32
            },
    {
        if self.changes.len() > 0 {
            1
        } else {
            0
        }
    }
}

/// Runs the compatibility gate: computes the current snapshot of the registry and holds it
/// against the stored one.
///
/// Something is found exactly where the stored snapshot does not bind the
/// same names to the same fingerprints as the registry does now. Then, and
/// only then, the current snapshot comes back as the candidate.
pub fn run_gate(registry: &Registry, stored: &Snapshot) -> (report: GateReport)
    ensures
        report.spec_has_changes() <==> stored@ != current_map(
            registry@,
            registry@.len() as int,
        ),
        report.candidate is Some <==> report.spec_has_changes(),
        report.candidate matches Some(current) ==> current@ == current_map(
            registry@,
            registry@.len() as int,
        ) && sorted(current.rows()) && views(report.changes@) == differences(
            stored.rows(),
            current.rows(),
        ),
{
    let current = current_hashes(registry);
    let changes = compare(stored, &current);
    let candidate = if changes.len() > 0 {
        Some(current)
    } else {
        None
    };
    GateReport { changes, candidate }
}

} // verus!
