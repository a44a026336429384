//! Resume positions: for each file that was played, where playback stood
//! when it was last saved.  The position itself is carried as it is given
//! and never inspected, so the book is generic over its type.

use vstd::prelude::*;

verus! {

/// The number of files above which old positions are dropped.
pub const MAX_POSITIONS: usize = 100;

/// How many positions are dropped at once when the book grows too large.
pub const EVICTED_POSITIONS: usize = 20;

/// The index of the entry for `path`, if there is one.
pub open spec fn index_of<V>(entries: Seq<(Seq<char>, V)>, path: Seq<char>) -> Option<int> {
    if exists|i: int| 0 <= i < entries.len() && #[trigger] entries[i].0 == path {
        Some(choose|i: int| 0 <= i < entries.len() && #[trigger] entries[i].0 == path)
    } else {
        None
    }
}

/// The position that `entries` hold for `path`, if any.
pub open spec fn position_in<V>(entries: Seq<(Seq<char>, V)>, path: Seq<char>) -> Option<V> {
    match index_of(entries, path) {
        Some(i) => Some(entries[i].1),
        None => None,
    }
}

/// Each file has at most one entry.
pub open spec fn unique_paths<V>(entries: Seq<(Seq<char>, V)>) -> bool {
    forall|i: int, j: int|
        0 <= i < j < entries.len() ==> #[trigger] entries[i].0 != #[trigger] entries[j].0
}

/// The entries after `pos` was recorded for a non-empty `path`: the
/// position of a known file is replaced where it stands, a new file is
/// added last, and when that makes more than `MAX_POSITIONS` entries the
/// `EVICTED_POSITIONS` oldest ones are dropped.
pub open spec fn recorded_entries<V>(entries: Seq<(Seq<char>, V)>, path: Seq<char>, pos: V) -> Seq<
    (Seq<char>, V),
> {
    match index_of(entries, path) {
        Some(i) => entries.update(i, (path, pos)),
        None => {
            let grown = entries.push((path, pos));
            if grown.len() > MAX_POSITIONS {
                grown.skip(EVICTED_POSITIONS as int)
            } else {
                grown
            }
        },
    }
}

/// The resume positions, one per file, oldest entry first.
pub struct PositionBook<V> {
    entries: Vec<(String, V)>,
}

impl<V> View for PositionBook<V> {
    type V = Seq<(Seq<char>, V)>;

    closed spec fn view(&self) -> Seq<(Seq<char>, V)> {
        self.entries@.map_values(|e: (String, V)| (e.0@, e.1))
    }
}

impl<V> PositionBook<V> {
    #[verifier::type_invariant]
    spec fn well_formed(self) -> bool {
        &&& self.entries.len() <= MAX_POSITIONS
        &&& unique_paths(self.entries@.map_values(|e: (String, V)| (e.0@, e.1)))
    }

    /// The position recorded for `path`, if any.
    pub open spec fn position(self, path: Seq<char>) -> Option<V> {
        position_in(self@, path)
    }

    /// An empty book.
    pub fn new() -> (book: Self)
        ensures
            book@ == Seq::<(Seq<char>, V)>::empty(),
    {
        let book = PositionBook { entries: Vec::new() };
        assert(book@ =~= Seq::<(Seq<char>, V)>::empty());
        book
    }

    /// The number of files with a recorded position.
    pub fn len(&self) -> (n: usize)
        ensures
            n == self@.len(),
            n <= MAX_POSITIONS,
            unique_paths(self@),
    {
        proof {
            use_type_invariant(self);
        }
        self.entries.len()
    }

    /// The entry at `i`, oldest first.
    pub fn entry(&self, i: usize) -> (e: (&String, &V))
        requires
            i < self@.len(),
        ensures
            e.0@ == self@[i as int].0,
            *e.1 == self@[i as int].1,
    {
        let e = &self.entries[i];
        (&e.0, &e.1)
    }

    fn find(&self, path: &String) -> (found: Option<usize>)
        ensures
            found matches Some(i) ==> i < self@.len() && index_of(self@, path@) == Some(i as int),
            found is None ==> index_of(self@, path@) is None,
    {
        proof {
            use_type_invariant(self);
        }
        let n = self.entries.len();
        let mut i: usize = 0;
        assert(unique_paths(self@));
        while i < n
            invariant
                n == self@.len(),
                i <= n,
                unique_paths(self@),
                forall|k: int| 0 <= k < i ==> #[trigger] self@[k].0 != path@,
            decreases n - i,
        {
            assert(self@[i as int].0 == self.entries@[i as int].0@);
            if self.entries[i].0 == *path {
                proof {
                    let j = choose|j: int| 0 <= j < self@.len() && #[trigger] self@[j].0 == path@;
                    if j != i {
                        if j < i {
                            assert(self@[j].0 != self@[i as int].0);
                        } else {
                            assert(self@[i as int].0 != self@[j].0);
                        }
                    }
                }
                return Some(i);
            }
            i = i + 1;
        }
        None
    }

    /// The position recorded for `path` (what the player resumes from).
    pub fn get(&self, path: &str) -> (pos: Option<&V>)
        ensures
            pos matches Some(p) ==> self.position(path@) == Some(*p),
            pos is None ==> self.position(path@) is None,
    {
        let p = path.to_owned();
        match self.find(&p) {
            Some(i) => Some(&self.entries[i].1),
            None => None,
        }
    }

    /// Records the position of `path`.  An empty path records nothing and
    /// returns `false`; otherwise the book becomes `recorded_entries` and
    /// the result is `true` (the settings then need saving).
    pub fn record(&mut self, path: &str, pos: V) -> (saved: bool)
        ensures
            saved == (path@.len() > 0),
            saved ==> final(self)@ == recorded_entries(old(self)@, path@, pos),
            !saved ==> final(self)@ == old(self)@,
    {
        proof {
            use_type_invariant(&*self);
        }
        if path.unicode_len() == 0 {
            return false;
        }
        let p = path.to_owned();
        let found = self.find(&p);
        let ghost old_view = self@;
        let mut entries: Vec<(String, V)> = Vec::new();
        std::mem::swap(&mut entries, &mut self.entries);
        assert(entries@.map_values(|e: (String, V)| (e.0@, e.1)) == old_view);
        proof {
            lemma_record_position(old_view, path@, pos, path@);
        }
        match found {
            Some(i) => {
                entries.set(i, (p, pos));
                assert(entries@.map_values(|e: (String, V)| (e.0@, e.1)) =~= recorded_entries(
                    old_view,
                    path@,
                    pos,
                ));
            },
            None => {
                entries.push((p, pos));
                let ghost grown = entries@.map_values(|e: (String, V)| (e.0@, e.1));
                assert(grown =~= old_view.push((path@, pos)));
                if entries.len() > MAX_POSITIONS {
                    let tail = entries.split_off(EVICTED_POSITIONS);
                    entries = tail;
                }
                assert(entries@.map_values(|e: (String, V)| (e.0@, e.1)) =~= recorded_entries(
                    old_view,
                    path@,
                    pos,
                ));
            },
        }
        self.entries = entries;
        true
    }
}

proof fn lemma_index_at<V>(entries: Seq<(Seq<char>, V)>, path: Seq<char>, i: int)
    requires
        unique_paths(entries),
        0 <= i < entries.len(),
        entries[i].0 == path,
    ensures
        index_of(entries, path) == Some(i),
        position_in(entries, path) == Some(entries[i].1),
{
    let j = choose|j: int| 0 <= j < entries.len() && #[trigger] entries[j].0 == path;
    if j < i {
        assert(entries[j].0 != entries[i].0);
    } else if j > i {
        assert(entries[i].0 != entries[j].0);
    }
}

proof fn lemma_index_absent<V>(entries: Seq<(Seq<char>, V)>, path: Seq<char>)
    requires
        forall|i: int| 0 <= i < entries.len() ==> #[trigger] entries[i].0 != path,
    ensures
        index_of(entries, path) is None,
        position_in(entries, path) is None,
{
}

/// What recording does to the book: the recorded file then reads back the
/// position just written; every other file keeps its position, unless the
/// book was full and a new file came in, in which case it either keeps its
/// position or has none left; and the book stays within `MAX_POSITIONS`
/// entries with one entry per file.
pub proof fn lemma_record_position<V>(
    entries: Seq<(Seq<char>, V)>,
    path: Seq<char>,
    pos: V,
    other: Seq<char>,
)
    requires
        unique_paths(entries),
        entries.len() <= MAX_POSITIONS,
        path.len() > 0,
    ensures
        position_in(recorded_entries(entries, path, pos), path) == Some(pos),
        other != path ==> position_in(recorded_entries(entries, path, pos), other) == position_in(
            entries,
            other,
        ) || (position_in(recorded_entries(entries, path, pos), other) is None
            && entries.len() == MAX_POSITIONS && index_of(entries, path) is None),
        unique_paths(recorded_entries(entries, path, pos)),
        recorded_entries(entries, path, pos).len() <= MAX_POSITIONS,
{
    let rec = recorded_entries(entries, path, pos);
    match index_of(entries, path) {
        Some(i) => {
            assert(0 <= i < entries.len() && entries[i].0 == path);
            assert(unique_paths(rec)) by {
                assert forall|a: int, b: int| 0 <= a < b < rec.len() implies #[trigger] rec[a].0
                    != #[trigger] rec[b].0 by {
                    if a == i {
                        assert(entries[i].0 != entries[b].0);
                    } else if b == i {
                        assert(entries[a].0 != entries[i].0);
                    } else {
                        assert(entries[a].0 != entries[b].0);
                    }
                }
            }
            lemma_index_at(rec, path, i);
            if other != path {
                if exists|k: int| 0 <= k < entries.len() && #[trigger] entries[k].0 == other {
                    let k = choose|k: int| 0 <= k < entries.len() && #[trigger] entries[k].0 == other;
                    lemma_index_at(entries, other, k);
                    lemma_index_at(rec, other, k);
                } else {
                    lemma_index_absent(entries, other);
                    assert forall|k: int| 0 <= k < rec.len() implies #[trigger] rec[k].0 != other by {
                        if k != i {
                            assert(rec[k] == entries[k]);
                        }
                    }
                    lemma_index_absent(rec, other);
                }
            }
        },
        None => {
            assert forall|k: int| 0 <= k < entries.len() implies #[trigger] entries[k].0 != path by {
                if entries[k].0 == path {
                    assert(exists|j: int| 0 <= j < entries.len() && #[trigger] entries[j].0 == path);
                }
            }
            let grown = entries.push((path, pos));
            assert(unique_paths(grown)) by {
                assert forall|a: int, b: int| 0 <= a < b < grown.len() implies #[trigger] grown[a].0
                    != #[trigger] grown[b].0 by {
                    if b == grown.len() - 1 {
                        assert(grown[a] == entries[a]);
                    } else {
                        assert(entries[a].0 != entries[b].0);
                    }
                }
            }
            let shift: int = if grown.len() > MAX_POSITIONS { EVICTED_POSITIONS as int } else { 0 };
            assert(rec =~= grown.skip(shift));
            assert(unique_paths(rec)) by {
                assert forall|a: int, b: int| 0 <= a < b < rec.len() implies #[trigger] rec[a].0
                    != #[trigger] rec[b].0 by {
                    assert(rec[a] == grown[a + shift] && rec[b] == grown[b + shift]);
                }
            }
            lemma_index_at(rec, path, entries.len() - shift);
            if other != path {
                if exists|k: int| 0 <= k < entries.len() && #[trigger] entries[k].0 == other {
                    let k = choose|k: int| 0 <= k < entries.len() && #[trigger] entries[k].0 == other;
                    lemma_index_at(entries, other, k);
                    if k >= shift {
                        assert(rec[k - shift] == grown[k]);
                        lemma_index_at(rec, other, k - shift);
                    } else {
                        assert forall|m: int| 0 <= m < rec.len() implies #[trigger] rec[m].0 != other by {
                            assert(rec[m] == grown[m + shift]);
                            if m + shift < entries.len() {
                                assert(entries[k].0 != entries[m + shift].0);
                            }
                        }
                        lemma_index_absent(rec, other);
                    }
                } else {
                    lemma_index_absent(entries, other);
                    assert forall|m: int| 0 <= m < rec.len() implies #[trigger] rec[m].0 != other by {
                        assert(rec[m] == grown[m + shift]);
                    }
                    lemma_index_absent(rec, other);
                }
            }
        },
    }
}

} // verus!
