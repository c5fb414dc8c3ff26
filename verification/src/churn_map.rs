use crate::metrics::Churn;
use vstd::hash_map::StringHashMap;
use vstd::prelude::*;
use vstd::string::StringExecFns;

verus! {

/// One path with the churn recorded for it.
pub type ChurnEntry = (Seq<char>, Churn);

/// No path stands twice in `entries`.
pub open spec fn has_distinct_paths(entries: Seq<ChurnEntry>) -> bool {
    forall|i: int, j: int|
        0 <= i < entries.len() && 0 <= j < entries.len() && (#[trigger] entries[i]).0 == (
        #[trigger] entries[j]).0 ==> i == j
}

/// The place of `path` in `entries`, if it has one.
pub open spec fn position_of(entries: Seq<ChurnEntry>, path: Seq<char>) -> Option<int> {
    if exists|i: int| 0 <= i < entries.len() && (#[trigger] entries[i]).0 == path {
        Some(choose|i: int| 0 <= i < entries.len() && (#[trigger] entries[i]).0 == path)
    } else {
        None
    }
}

/// The churn that `entries` holds for `path`, if any.
pub open spec fn churn_of(entries: Seq<ChurnEntry>, path: Seq<char>) -> Option<Churn> {
    match position_of(entries, path) {
        Some(i) => Some(entries[i].1),
        None => None,
    }
}

/// The churn that `entries` holds for `path`, as a number: 0 where they hold
/// none.
pub open spec fn count_of(entries: Seq<ChurnEntry>, path: Seq<char>) -> nat {
    match churn_of(entries, path) {
        Some(churn) => churn@,
        None => 0,
    }
}

/// Whether one more change of `path` can be counted: its churn is not yet
/// the largest that the type holds.
pub open spec fn can_count(entries: Seq<ChurnEntry>, path: Seq<char>) -> bool {
    count_of(entries, path) < u32::MAX
}

/// `entries` after one more change of `path` was counted: the churn of the
/// path is one higher where the path stands already, and the path stands
/// at the end with a churn of 1 where it did not.
pub open spec fn counted(entries: Seq<ChurnEntry>, path: Seq<char>) -> Seq<ChurnEntry> {
    match position_of(entries, path) {
        Some(at) => entries.update(at, (path, Churn((entries[at].1.0 + 1) as u32))),
        None => entries.push((path, Churn(1))),
    }
}

/// Counting a change of a path raises the churn of that path by one and
/// leaves every other churn as it was.
pub proof fn lemma_counted(entries: Seq<ChurnEntry>, path: Seq<char>, other: Seq<char>)
    requires
        has_distinct_paths(entries),
        can_count(entries, path),
    ensures
        has_distinct_paths(counted(entries, path)),
        count_of(counted(entries, path), path) == count_of(entries, path) + 1,
        other != path ==> churn_of(counted(entries, path), other) == churn_of(entries, other),
{
    let after = counted(entries, path);
    let at = match position_of(entries, path) {
        Some(at) => at,
        None => entries.len() as int,
    };
    assert(after[at].0 == path);
    assert forall|i: int, j: int|
        0 <= i < after.len() && 0 <= j < after.len() && (#[trigger] after[i]).0 == (
        #[trigger] after[j]).0 implies i == j by {
        if i < entries.len() && j < entries.len() {
            assert(entries[i].0 == entries[j].0);
        } else if i < entries.len() {
            assert(entries[i].0 == path);
        } else if j < entries.len() {
            assert(entries[j].0 == path);
        }
    }
    lemma_found(after, path, at);
    if other != path {
        lemma_untouched(entries, after, other);
    }
}

/// A path keeps its churn where the entries change at other paths only.
proof fn lemma_untouched(entries: Seq<ChurnEntry>, after: Seq<ChurnEntry>, other: Seq<char>)
    requires
        has_distinct_paths(after),
        entries.len() <= after.len(),
        forall|k: int|
            0 <= k < entries.len() && (#[trigger] entries[k]).0 == other ==> after[k] == entries[k],
        forall|k: int|
            0 <= k < after.len() && (#[trigger] after[k]).0 == other ==> k < entries.len()
                && entries[k].0 == other,
    ensures
        churn_of(after, other) == churn_of(entries, other),
{
    match position_of(entries, other) {
        Some(place) => {
            assert(after[place] == entries[place]);
            lemma_found(after, other, place);
        },
        None => {
            if position_of(after, other).is_some() {
                let k = position_of(after, other).unwrap();
                assert(entries[k].0 == other);
            }
        },
    }
}

/// A path that stands at a place is found there, where no path stands
/// twice.
pub proof fn lemma_found(entries: Seq<ChurnEntry>, path: Seq<char>, at: int)
    requires
        has_distinct_paths(entries),
        0 <= at < entries.len(),
        entries[at].0 == path,
    ensures
        position_of(entries, path) == Some(at),
        churn_of(entries, path) == Some(entries[at].1),
{
    let found = choose|i: int| 0 <= i < entries.len() && (#[trigger] entries[i]).0 == path;
    assert(entries[found].0 == entries[at].0);
}

/// The churn of each file of a repository, by path. The paths are kept in
/// the order in which they were first seen.
pub struct ChurnMap {
    index: StringHashMap<usize>,
    paths: Vec<String>,
    counts: Vec<Churn>,
}

impl View for ChurnMap {
    type V = Seq<ChurnEntry>;

    closed spec fn view(&self) -> Seq<ChurnEntry> {
        Seq::new(self.paths@.len(), |i: int| (self.paths@[i]@, self.counts@[i]))
    }
}

impl ChurnMap {
    /// What every map keeps to: each path is found at its place.
    #[verifier::type_invariant]
    pub closed spec fn indexed(&self) -> bool {
        &&& self.paths@.len() == self.counts@.len()
        &&& forall|i: int|
            0 <= i < self.paths@.len() ==> self.index@.contains_key((#[trigger] self.paths@[i])@)
                && self.index@[self.paths@[i]@] == i
        &&& forall|k: Seq<char>| #[trigger]
            self.index@.contains_key(k) ==> self.index@[k] < self.paths@.len()
                && self.paths@[self.index@[k] as int]@ == k
    }

    /// No path stands twice in a map.
    pub proof fn lemma_distinct(&self)
        requires
            self.indexed(),
        ensures
            has_distinct_paths(self@),
    {
    }

    proof fn lemma_position(&self, path: Seq<char>)
        requires
            self.indexed(),
        ensures
            self.index@.contains_key(path) ==> position_of(self@, path) == Some(
                self.index@[path] as int,
            ),
            !self.index@.contains_key(path) ==> position_of(self@, path).is_none(),
    {
        if self.index@.contains_key(path) {
            let at = self.index@[path] as int;
            assert(self@[at].0 == path);
            let found = choose|i: int| 0 <= i < self@.len() && (#[trigger] self@[i]).0 == path;
            assert(self.paths@[found]@ == path);
        } else {
            if exists|i: int| 0 <= i < self@.len() && (#[trigger] self@[i]).0 == path {
                let i = choose|i: int| 0 <= i < self@.len() && (#[trigger] self@[i]).0 == path;
                assert(self.index@.contains_key(self.paths@[i]@));
            }
        }
    }

    /// A map without paths.
    pub fn new() -> (map: ChurnMap)
        ensures
            map@ == Seq::<ChurnEntry>::empty(),
    {
        let map = ChurnMap { index: StringHashMap::new(), paths: Vec::new(), counts: Vec::new() };
        assert(map@ =~= Seq::<ChurnEntry>::empty());
        map
    }

    /// The number of paths.
    pub fn len(&self) -> (n: usize)
        ensures
            n == self@.len(),
            has_distinct_paths(self@),
    {
        proof {
            use_type_invariant(self);
            self.lemma_distinct();
        }
        self.paths.len()
    }

    pub fn is_empty(&self) -> (b: bool)
        ensures
            b == (self@.len() == 0),
    {
        self.paths.len() == 0
    }

    /// The path at place `i`.
    pub fn path(&self, i: usize) -> (path: &String)
        requires
            i < self@.len(),
        ensures
            path@ == self@[i as int].0,
    {
        proof {
            use_type_invariant(self);
        }
        &self.paths[i]
    }

    /// The churn at place `i`.
    pub fn churn(&self, i: usize) -> (churn: Churn)
        requires
            i < self@.len(),
        ensures
            churn == self@[i as int].1,
    {
        proof {
            use_type_invariant(self);
        }
        self.counts[i]
    }

    /// Whether the map holds `path`.
    pub fn contains_key(&self, path: &str) -> (b: bool)
        ensures
            b == churn_of(self@, path@).is_some(),
    {
        proof {
            use_type_invariant(self);
            self.lemma_position(path@);
        }
        self.index.contains_key(path)
    }

    /// The churn recorded for `path`.
    pub fn get(&self, path: &str) -> (churn: Option<Churn>)
        ensures
            churn == churn_of(self@, path@),
    {
        proof {
            use_type_invariant(self);
            self.lemma_position(path@);
        }
        match self.index.get(path) {
            Some(at) => Some(self.counts[*at]),
            None => None,
        }
    }

    /// Sets the churn of `path`: in its place if the map holds the path, at
    /// the end if not.
    pub fn insert(&mut self, path: &str, churn: Churn)
        ensures
            has_distinct_paths(final(self)@),
            match position_of(old(self)@, path@) {
                Some(at) => final(self)@ == old(self)@.update(at, (path@, churn)),
                None => final(self)@ == old(self)@.push((path@, churn)),
            },
    {
        proof {
            use_type_invariant(&*self);
            self.lemma_position(path@);
        }
        let mut taken = ChurnMap::new();
        std::mem::swap(self, &mut taken);
        let ChurnMap { mut index, mut paths, mut counts } = taken;
        let found = match index.get(path) {
            Some(at) => Some(*at),
            None => None,
        };
        match found {
            Some(at) => {
                counts.set(at, churn);
            },
            None => {
                let at = paths.len();
                index.insert(String::from_str(path), at);
                paths.push(String::from_str(path));
                counts.push(churn);
            },
        }
        *self = ChurnMap { index, paths, counts };
        proof {
            self.lemma_distinct();
            match found {
                Some(at) => {
                    assert(self@ =~= old(self)@.update(at as int, (path@, churn)));
                },
                None => {
                    assert(self@ =~= old(self)@.push((path@, churn)));
                },
            }
        }
    }

    /// Counts one more change of `path`. Where the count is already the
    /// largest that a churn can hold, the map stays as it is and the answer
    /// is `false`.
    pub fn record(&mut self, path: &str) -> (done: bool)
        ensures
            has_distinct_paths(final(self)@),
            done == can_count(old(self)@, path@),
            final(self)@ == if done {
                counted(old(self)@, path@)
            } else {
                old(self)@
            },
    {
        match self.get(path) {
            Some(churn) => {
                if churn.0 < u32::MAX {
                    self.insert(path, Churn(churn.0 + 1));
                    true
                } else {
                    proof {
                        use_type_invariant(&*self);
                        self.lemma_distinct();
                    }
                    false
                }
            },
            None => {
                self.insert(path, Churn(1));
                true
            },
        }
    }
}

} // verus!
