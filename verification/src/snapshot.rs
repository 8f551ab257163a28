//! Snapshots: the table from type name to fingerprint, kept sorted by name.

use crate::order::{
    compare_names, lemma_name_before_irreflexive, lemma_name_before_total,
    lemma_name_before_transitive, name_before, Position,
};
use crate::table::{read_table, toml_table, toml_text, write_table};
use vstd::prelude::*;

verus! {

/// One line of a snapshot.
#[derive(Clone, Debug, PartialEq, Eq)]
pub struct SnapshotEntry {
    pub name: String,
    pub hash: u32,
}

/// Why a snapshot could not be read or written.
pub enum SnapshotError {
    /// The stored text is no table from names to fingerprints.
    Corrupt(toml::de::Error),
    /// The snapshot could not be written out as text.
    Unwritable(toml::ser::Error),
}

/// The lines of a table as plain values, in order.
pub open spec fn rows_of(entries: Seq<SnapshotEntry>) -> Seq<(Seq<char>, u32)> {
    Seq::new(entries.len(), |i: int| (entries[i].name@, entries[i].hash))
}

/// Whether the names of a table stand in strictly ascending order. Such a
/// table holds no name twice.
pub open spec fn sorted(rows: Seq<(Seq<char>, u32)>) -> bool {
    forall|i: int, j: int| 0 <= i < j < rows.len() ==> name_before(rows[i].0, rows[j].0)
}

/// The mapping that a table stands for: each line binds its name, a later
/// line replacing an earlier one of the same name.
pub open spec fn rows_map(rows: Seq<(Seq<char>, u32)>) -> Map<Seq<char>, u32>
    decreases rows.len(),
{
    if rows.len() == 0 {
        Map::empty()
    } else {
        rows_map(rows.drop_last()).insert(rows.last().0, rows.last().1)
    }
}

/// Every binding of the mapping is a line of the table.
pub proof fn lemma_rows_map_dom(rows: Seq<(Seq<char>, u32)>, name: Seq<char>)
    requires
        rows_map(rows).contains_key(name),
    ensures
        exists|i: int| 0 <= i < rows.len() && rows[i] == (name, rows_map(rows)[name]),
    decreases rows.len(),
{
    if rows.len() > 0 {
        if rows.last().0 == name {
            assert(rows[rows.len() - 1] == (name, rows_map(rows)[name]));
        } else {
            lemma_rows_map_dom(rows.drop_last(), name);
            let i = choose|i: int|
                0 <= i < rows.drop_last().len() && rows.drop_last()[i] == (
                    name,
                    rows_map(rows.drop_last())[name],
                );
            assert(rows[i] == (name, rows_map(rows)[name]));
        }
    }
}

/// Every line of a sorted table is a binding of the mapping.
pub proof fn lemma_rows_map_index(rows: Seq<(Seq<char>, u32)>, i: int)
    requires
        sorted(rows),
        0 <= i < rows.len(),
    ensures
        rows_map(rows).contains_key(rows[i].0),
        rows_map(rows)[rows[i].0] == rows[i].1,
    decreases rows.len(),
{
    if i < rows.len() - 1 {
        lemma_rows_map_index(rows.drop_last(), i);
        lemma_name_before_irreflexive(rows[i].0);
        assert(name_before(rows[i].0, rows[rows.len() - 1].0));
    }
}

/// Putting a line into a sorted table at its place, or replacing the line of
/// its name, binds the name in the mapping and changes nothing else.
pub proof fn lemma_rows_map_put(
    before: Seq<(Seq<char>, u32)>,
    after: Seq<(Seq<char>, u32)>,
    name: Seq<char>,
    hash: u32,
    place: int,
    replaced: bool,
)
    requires
        sorted(before),
        sorted(after),
        replaced ==> 0 <= place < before.len() && before[place].0 == name && after
            == before.update(place, (name, hash)),
        !replaced ==> 0 <= place <= before.len() && after == before.insert(place, (name, hash)),
    ensures
        rows_map(after) == rows_map(before).insert(name, hash),
{
    let target = rows_map(before).insert(name, hash);
    assert(after[place] == (name, hash));
    assert forall|q: Seq<char>| #[trigger]
        rows_map(after).dom().contains(q) implies target.dom().contains(q) && target[q]
        == rows_map(after)[q] by {
        lemma_rows_map_dom(after, q);
        let i = choose|i: int| 0 <= i < after.len() && after[i] == (q, rows_map(after)[q]);
        if i != place {
            let j = if replaced || i < place {
                i
            } else {
                i - 1
            };
            assert(before[j] == after[i]);
            lemma_rows_map_index(before, j);
            lemma_name_before_irreflexive(q);
            assert(name_before(after[i].0, after[place].0) || name_before(
                after[place].0,
                after[i].0,
            ));
        }
    }
    assert forall|q: Seq<char>| #[trigger]
        target.dom().contains(q) implies rows_map(after).dom().contains(q) by {
        if q == name {
            lemma_rows_map_index(after, place);
        } else {
            lemma_rows_map_dom(before, q);
            let j = choose|j: int|
                0 <= j < before.len() && before[j] == (q, rows_map(before)[q]);
            let i = if replaced || j < place {
                j
            } else {
                j + 1
            };
            assert(after[i] == before[j]);
            lemma_rows_map_index(after, i);
        }
    }
    assert(rows_map(after) =~= target);
}

/// The lines before the last of a sorted table stand for the mapping
/// without the last name.
proof fn lemma_rows_map_drop_last(rows: Seq<(Seq<char>, u32)>)
    requires
        sorted(rows),
        rows.len() > 0,
    ensures
        rows_map(rows.drop_last()) == rows_map(rows).remove(rows.last().0),
        sorted(rows.drop_last()),
{
    let front = rows.drop_last();
    assert(sorted(front)) by {
        assert forall|i: int, j: int| 0 <= i < j < front.len() implies name_before(
            front[i].0,
            front[j].0,
        ) by {
            assert(front[i] == rows[i] && front[j] == rows[j]);
        }
    }
    if rows_map(front).contains_key(rows.last().0) {
        lemma_rows_map_dom(front, rows.last().0);
        let i = choose|i: int|
            0 <= i < front.len() && front[i] == (rows.last().0, rows_map(front)[rows.last().0]);
        assert(front[i] == rows[i]);
        assert(name_before(rows[i].0, rows[rows.len() - 1].0));
        lemma_name_before_irreflexive(rows.last().0);
    }
    assert(rows_map(front) =~= rows_map(rows).remove(rows.last().0));
}

/// The last line of a sorted table holds the greatest name of the mapping.
proof fn lemma_last_is_greatest(rows: Seq<(Seq<char>, u32)>, name: Seq<char>)
    requires
        sorted(rows),
        rows_map(rows).contains_key(name),
    ensures
        rows.len() > 0,
        name == rows.last().0 || name_before(name, rows.last().0),
{
    lemma_rows_map_dom(rows, name);
    let i = choose|i: int| 0 <= i < rows.len() && rows[i] == (name, rows_map(rows)[name]);
    if i < rows.len() - 1 {
        assert(name_before(rows[i].0, rows[rows.len() - 1].0));
    }
}

/// The order of the lines is decided by the mapping: two sorted tables that
/// stand for the same mapping are the same table.
pub proof fn lemma_sorted_rows_unique(a: Seq<(Seq<char>, u32)>, b: Seq<(Seq<char>, u32)>)
    requires
        sorted(a),
        sorted(b),
        rows_map(a) == rows_map(b),
    ensures
        a == b,
    decreases a.len(),
{
    if a.len() == 0 {
        if b.len() > 0 {
            lemma_rows_map_index(b, 0);
        }
        assert(a =~= b);
    } else {
        lemma_rows_map_index(a, a.len() - 1);
        lemma_last_is_greatest(b, a.last().0);
        lemma_rows_map_index(b, b.len() - 1);
        lemma_last_is_greatest(a, b.last().0);
        if a.last().0 != b.last().0 {
            lemma_name_before_transitive(a.last().0, b.last().0, a.last().0);
            lemma_name_before_irreflexive(a.last().0);
        }
        assert(a.last() == b.last());
        lemma_rows_map_drop_last(a);
        lemma_rows_map_drop_last(b);
        lemma_sorted_rows_unique(a.drop_last(), b.drop_last());
        assert(a =~= a.drop_last().push(a.last()));
        assert(b =~= b.drop_last().push(b.last()));
    }
}

/// A snapshot: for each type name one fingerprint. The lines are kept in
/// ascending order of name, which is the order in which they are written out.
pub struct Snapshot {
    entries: Vec<SnapshotEntry>,
}

impl View for Snapshot {
    type V = Map<Seq<char>, u32>;

    closed spec fn view(&self) -> Map<Seq<char>, u32> {
        rows_map(self.rows())
    }
}

impl Snapshot {
    /// The lines of the snapshot, in order.
    pub closed spec fn rows(&self) -> Seq<(Seq<char>, u32)> {
        rows_of(self.entries@)
    }

    #[verifier::type_invariant]
    spec fn well_formed(&self) -> bool {
        sorted(rows_of(self.entries@))
    }

    /// The mapping of a snapshot is the mapping of its lines.
    pub proof fn lemma_view(&self)
        ensures
            self@ == rows_map(self.rows()),
    {
    }

    /// A snapshot with no line.
    pub fn new() -> (snapshot: Snapshot)
        ensures
            snapshot.rows() == Seq::<(Seq<char>, u32)>::empty(),
            snapshot@ == Map::<Seq<char>, u32>::empty(),
            sorted(snapshot.rows()),
    {
        let snapshot = Snapshot { entries: Vec::new() };
        assert(snapshot.rows() =~= Seq::<(Seq<char>, u32)>::empty());
        snapshot
    }

    /// The lines of the snapshot, in ascending order of name.
    pub fn entries(&self) -> (entries: &Vec<SnapshotEntry>)
        ensures
            rows_of(entries@) == self.rows(),
            sorted(self.rows()),
    {
        proof {
            use_type_invariant(self);
        }
        &self.entries
    }

    /// How many lines the snapshot holds.
    pub fn len(&self) -> (n: usize)
        ensures
            n == self.rows().len(),
    {
        self.entries.len()
    }

    /// Finds the place of a name: the index of its line where it has one,
    /// else the index at which its line would have to be put in.
    fn locate(&self, name: &str) -> (place: (usize, bool))
        ensures
            place.0 <= self.rows().len(),
            place.1 ==> place.0 < self.rows().len() && self.rows()[place.0 as int].0 == name@,
            forall|i: int| 0 <= i < place.0 ==> name_before(self.rows()[i].0, name@),
            forall|i: int|
                place.0 <= i < self.rows().len() && !(place.1 && i == place.0) ==> name_before(
                    name@,
                    self.rows()[i].0,
                ),
    {
        proof {
            use_type_invariant(self);
        }
        let ghost rows = self.rows();
        let mut low: usize = 0;
        let mut high: usize = self.entries.len();
        while low < high
            invariant
                low <= high <= rows.len(),
                rows == rows_of(self.entries@),
                sorted(rows),
                forall|i: int| 0 <= i < low ==> name_before(rows[i].0, name@),
                forall|i: int| high <= i < rows.len() ==> name_before(name@, rows[i].0),
            decreases high - low,
        {
            let middle = low + (high - low) / 2;
            let ghost pivot = rows[middle as int].0;
            match compare_names(self.entries[middle].name.as_str(), name) {
                Position::Before => {
                    proof {
                        assert forall|i: int| 0 <= i < middle + 1 implies name_before(
                            rows[i].0,
                            name@,
                        ) by {
                            if i < middle {
                                lemma_name_before_transitive(rows[i].0, pivot, name@);
                            }
                        }
                    }
                    low = middle + 1;
                },
                Position::Same => {
                    proof {
                        assert forall|i: int| middle < i < rows.len() implies name_before(
                            name@,
                            rows[i].0,
                        ) by {
                            assert(name_before(rows[middle as int].0, rows[i].0));
                        }
                    }
                    return (middle, true);
                },
                Position::After => {
                    proof {
                        lemma_name_before_total(pivot, name@);
                        assert forall|i: int| middle <= i < rows.len() implies name_before(
                            name@,
                            rows[i].0,
                        ) by {
                            if middle < i {
                                lemma_name_before_transitive(name@, pivot, rows[i].0);
                            }
                        }
                    }
                    high = middle;
                },
            }
        }
        (low, false)
    }

    /// Binds a name to a fingerprint, in place of what the name was bound to.
    pub fn insert(&mut self, name: String, hash: u32)
        ensures
            final(self)@ == old(self)@.insert(name@, hash),
            sorted(final(self).rows()),
    {
        proof {
            use_type_invariant(&*self);
        }
        let ghost before = self.rows();
        let place = self.locate(name.as_str());
        let ghost line = (name@, hash);
        let mut entries: Vec<SnapshotEntry> = Vec::new();
        core::mem::swap(&mut self.entries, &mut entries);
        if place.1 {
            entries.set(place.0, SnapshotEntry { name, hash });
            proof {
                assert(rows_of(entries@) =~= before.update(place.0 as int, line));
            }
        } else {
            entries.insert(place.0, SnapshotEntry { name, hash });
            proof {
                assert(rows_of(entries@) =~= before.insert(place.0 as int, line));
            }
        }
        proof {
            let after = rows_of(entries@);
            assert(sorted(after)) by {
                assert forall|i: int, j: int| 0 <= i < j < after.len() implies name_before(
                    after[i].0,
                    after[j].0,
                ) by {
                    let back = |k: int|
                        if place.1 || k < place.0 {
                            k
                        } else {
                            k - 1
                        };
                    if i != place.0 && j != place.0 {
                        assert(after[i] == before[back(i)]);
                        assert(after[j] == before[back(j)]);
                    } else if i == place.0 {
                        assert(after[j] == before[back(j)]);
                    } else {
                        assert(after[i] == before[back(i)]);
                    }
                }
            }
            lemma_rows_map_put(before, after, line.0, hash, place.0 as int, place.1);
        }
        self.entries = entries;
        proof {
            assert(self.rows() == rows_of(entries@));
        }
    }

    /// The snapshot that a run of lines stands for, whatever their order:
    /// each line binds its name, a later line replacing an earlier one of the
    /// same name.
    pub fn from_entries(entries: &Vec<SnapshotEntry>) -> (snapshot: Snapshot)
        ensures
            snapshot@ == rows_map(rows_of(entries@)),
            sorted(snapshot.rows()),
    {
        let ghost rows = rows_of(entries@);
        let mut snapshot = Snapshot::new();
        let mut i: usize = 0;
        while i < entries.len()
            invariant
                i <= entries.len(),
                rows == rows_of(entries@),
                snapshot@ == rows_map(rows.take(i as int)),
                sorted(snapshot.rows()),
            decreases entries.len() - i,
        {
            proof {
                assert(rows.take(i + 1).drop_last() =~= rows.take(i as int));
            }
            snapshot.insert(entries[i].name.clone(), entries[i].hash);
            i += 1;
        }
        proof {
            assert(rows.take(i as int) =~= rows);
        }
        snapshot
    }

    /// Reads a snapshot from its text. A text that is no table from names to
    /// fingerprints is refused: it is never taken for an empty snapshot.
    pub fn from_toml(text: &str) -> (read: Result<Snapshot, SnapshotError>)
        ensures
            match read {
                Ok(snapshot) => toml_table(text@) matches Some(rows) && snapshot@ == rows_map(
                    rows,
                ) && sorted(snapshot.rows()),
                Err(error) => error is Corrupt && toml_table(text@) is None,
            },
    {
        match read_table(text) {
            Ok(entries) => Ok(Snapshot::from_entries(&entries)),
            Err(error) => Err(SnapshotError::Corrupt(error)),
        }
    }

    /// Reads the stored snapshot. With nothing stored yet the snapshot is
    /// empty, which is no error; what is stored is read as `from_toml` reads
    /// it.
    pub fn load(stored: Option<&str>) -> (read: Result<Snapshot, SnapshotError>)
        ensures
            match (stored, read) {
                (None, Ok(snapshot)) => snapshot.rows() == Seq::<(Seq<char>, u32)>::empty(),
                (Some(text), Ok(snapshot)) => toml_table(text@) matches Some(rows) && snapshot@
                    == rows_map(rows) && sorted(snapshot.rows()),
                (Some(text), Err(error)) => error is Corrupt && toml_table(text@) is None,
                (None, Err(_)) => false,
            },
    {
        match stored {
            Some(text) => Snapshot::from_toml(text),
            None => Ok(Snapshot::new()),
        }
    }

    /// Writes the snapshot out as text, its lines in ascending order of name.
    pub fn to_toml(&self) -> (written: Result<String, SnapshotError>)
        ensures
            match written {
                Ok(text) => toml_text(self.rows()) == Some(text@),
                Err(error) => error is Unwritable && toml_text(self.rows()) is None,
            },
    {
        match write_table(&self.entries) {
            Ok(text) => Ok(text),
            Err(error) => Err(SnapshotError::Unwritable(error)),
        }
    }

    /// The fingerprint stored under a name, if there is one.
    pub fn get(&self, name: &str) -> (found: Option<u32>)
        ensures
            found == if self@.contains_key(name@) {
                Some(self@[name@])
            } else {
                None
            },
    {
        proof {
            use_type_invariant(self);
        }
        let place = self.locate(name);
        if place.1 {
            proof {
                lemma_rows_map_index(self.rows(), place.0 as int);
            }
            Some(self.entries[place.0].hash)
        } else {
            proof {
                if self@.contains_key(name@) {
                    lemma_rows_map_dom(self.rows(), name@);
                    lemma_name_before_irreflexive(name@);
                }
            }
            None
        }
    }
}

} // verus!
