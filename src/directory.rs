//! The room directory: display name to room handle, last write wins.
use vstd::prelude::*;

verus! {

/// A room as the session knows it. The number is the session's own index
/// of the room; the directory only carries it.
#[derive(Clone, Copy, Debug, PartialEq, Eq, Structural, PartialOrd, Ord, Hash)]
pub struct RoomHandle(pub u64);

/// One name of the directory with the room it stands for.
pub struct Entry {
    pub name: String,
    pub handle: RoomHandle,
}

/// Mapping from a room's display name to its handle.
pub struct RoomDirectory {
    entries: Vec<Entry>,
    model: Ghost<Map<Seq<char>, RoomHandle>>,
}

/// The mapping after a sequence of upserts applied in order to `m`.
pub open spec fn apply_upserts(
    m: Map<Seq<char>, RoomHandle>,
    ops: Seq<(Seq<char>, RoomHandle)>,
) -> Map<Seq<char>, RoomHandle>
    decreases ops.len(),
{
    if ops.len() == 0 {
        m
    } else {
        apply_upserts(m, ops.drop_last()).insert(ops.last().0, ops.last().1)
    }
}

/// The handle given by the last upsert of `name` in `ops`, if there is one.
pub open spec fn last_upsert(ops: Seq<(Seq<char>, RoomHandle)>, name: Seq<char>) -> Option<
    RoomHandle,
>
    decreases ops.len(),
{
    if ops.len() == 0 {
        None
    } else if ops.last().0 == name {
        Some(ops.last().1)
    } else {
        last_upsert(ops.drop_last(), name)
    }
}

/// After any sequence of upserts, a name stands for the handle of its most
/// recent upsert; a name that was never upserted keeps what it had before.
pub proof fn lemma_resolve_gives_last_upsert(
    m: Map<Seq<char>, RoomHandle>,
    ops: Seq<(Seq<char>, RoomHandle)>,
    name: Seq<char>,
)
    ensures
        last_upsert(ops, name) is Some ==> apply_upserts(m, ops).contains_key(name) && apply_upserts(
            m,
            ops,
        )[name] == last_upsert(ops, name)->0,
        last_upsert(ops, name) is None ==> apply_upserts(m, ops).contains_key(name)
            == m.contains_key(name) && (m.contains_key(name) ==> apply_upserts(m, ops)[name]
            == m[name]),
    decreases ops.len(),
{
    if ops.len() > 0 {
        lemma_resolve_gives_last_upsert(m, ops.drop_last(), name);
    }
}

/// Applying the same upserts a second time changes nothing.
pub proof fn lemma_upserts_idempotent(m: Map<Seq<char>, RoomHandle>, ops: Seq<(Seq<char>, RoomHandle)>)
    ensures
        apply_upserts(apply_upserts(m, ops), ops) == apply_upserts(m, ops),
{
    let once = apply_upserts(m, ops);
    let twice = apply_upserts(once, ops);
    assert forall|k: Seq<char>| #[trigger] twice.contains_key(k) == once.contains_key(k) && (
    twice.contains_key(k) ==> twice[k] == once[k]) by {
        lemma_resolve_gives_last_upsert(m, ops, k);
        lemma_resolve_gives_last_upsert(once, ops, k);
    }
    assert(twice =~= once);
}

/// The pairs of a vector of (name, handle), as values.
pub open spec fn pairs_view(v: Seq<(String, RoomHandle)>) -> Seq<(Seq<char>, RoomHandle)> {
    v.map_values(|p: (String, RoomHandle)| (p.0@, p.1))
}

impl View for RoomDirectory {
    type V = Map<Seq<char>, RoomHandle>;

    closed spec fn view(&self) -> Map<Seq<char>, RoomHandle> {
        self.model@
    }
}

impl RoomDirectory {
    /// Each entry is in the model, each name of the model has an entry, and
    /// no name appears twice.
    pub closed spec fn wf(&self) -> bool {
        &&& forall|i: int|
            0 <= i < self.entries@.len() ==> #[trigger] self.model@.contains_key(
                self.entries@[i].name@,
            ) && self.model@[self.entries@[i].name@] == self.entries@[i].handle
        &&& forall|k: Seq<char>|
            #[trigger] self.model@.contains_key(k) ==> exists|i: int|
                0 <= i < self.entries@.len() && self.entries@[i].name@ == k
        &&& forall|i: int, j: int|
            0 <= i < j < self.entries@.len() ==> self.entries@[i].name@ != self.entries@[j].name@
    }

    /// An empty directory.
    pub fn new() -> (r: RoomDirectory)
        ensures
            r.wf(),
            r@ == Map::<Seq<char>, RoomHandle>::empty(),
    {
        RoomDirectory { entries: Vec::new(), model: Ghost(Map::empty()) }
    }

    /// Position of the entry named `name`, if there is one.
    fn find(&self, name: &String) -> (r: Option<usize>)
        requires
            self.wf(),
        ensures
            match r {
                Some(i) => i < self.entries@.len() && self.entries@[i as int].name@ == name@,
                None => !self@.contains_key(name@),
            },
    {
        let mut i: usize = 0;
        while i < self.entries.len()
            invariant
                self.wf(),
                i <= self.entries@.len(),
                forall|j: int| 0 <= j < i ==> self.entries@[j].name@ != name@,
            decreases self.entries@.len() - i,
        {
            if self.entries[i].name == *name {
                return Some(i);
            }
            i = i + 1;
        }
        None
    }

    /// The handle currently known under `name`, or nothing if the name is
    /// unknown.
    pub fn resolve(&self, name: &String) -> (r: Option<RoomHandle>)
        requires
            self.wf(),
        ensures
            r == (if self@.contains_key(name@) {
                Some(self@[name@])
            } else {
                None::<RoomHandle>
            }),
    {
        match self.find(name) {
            Some(i) => Some(self.entries[i].handle),
            None => None,
        }
    }

    /// Records `handle` under `name`, replacing what the name stood for.
    pub fn upsert(&mut self, name: String, handle: RoomHandle)
        requires
            old(self).wf(),
        ensures
            final(self).wf(),
            final(self)@ == old(self)@.insert(name@, handle),
    {
        let ghost key = name@;
        let ghost mut pos: int = 0;
        match self.find(&name) {
            Some(i) => {
                proof {
                    pos = i as int;
                }
                let e = Entry { name, handle };
                self.entries.set(i, e);
            },
            None => {
                proof {
                    pos = self.entries@.len() as int;
                }
                self.entries.push(Entry { name, handle });
            },
        }
        assert(self.entries@[pos].name@ == key);
        self.model = Ghost(self.model@.insert(key, handle));
        assert forall|k: Seq<char>| #[trigger] self.model@.contains_key(k) implies exists|i: int|
            0 <= i < self.entries@.len() && self.entries@[i].name@ == k by {
            if k != key {
                let i = choose|i: int|
                    0 <= i < old(self).entries@.len() && old(self).entries@[i].name@ == k;
                assert(self.entries@[i].name@ == k);
            } else {
                assert(self.entries@[pos].name@ == k);
            }
        }
    }

    /// Applies the upserts of `ops` in order.
    pub fn upsert_all(&mut self, ops: &Vec<(String, RoomHandle)>)
        requires
            old(self).wf(),
        ensures
            final(self).wf(),
            final(self)@ == apply_upserts(old(self)@, pairs_view(ops@)),
    {
        let ghost start = self@;
        let mut i: usize = 0;
        while i < ops.len()
            invariant
                self.wf(),
                i <= ops@.len(),
                self@ == apply_upserts(start, pairs_view(ops@.subrange(0, i as int))),
            decreases ops@.len() - i,
        {
            let name = ops[i].0.clone();
            let handle = ops[i].1;
            self.upsert(name, handle);
            proof {
                let next = pairs_view(ops@.subrange(0, i + 1));
                assert(next.drop_last() =~= pairs_view(ops@.subrange(0, i as int)));
            }
            i = i + 1;
        }
        assert(ops@.subrange(0, ops@.len() as int) =~= ops@);
    }

    /// The names and handles of the directory at this moment, each name once.
    pub fn snapshot(&self) -> (r: Vec<(String, RoomHandle)>)
        requires
            self.wf(),
        ensures
            r@.len() == self@.len(),
            forall|i: int|
                0 <= i < r@.len() ==> #[trigger] self@.contains_key(r@[i].0@) && self@[r@[i].0@]
                    == r@[i].1,
            forall|k: Seq<char>|
                #[trigger] self@.contains_key(k) ==> exists|i: int| 0 <= i < r@.len() && r@[i].0@ == k,
    {
        let mut r: Vec<(String, RoomHandle)> = Vec::new();
        let mut i: usize = 0;
        while i < self.entries.len()
            invariant
                self.wf(),
                i <= self.entries@.len(),
                r@.len() == i,
                forall|j: int|
                    0 <= j < i ==> r@[j].0@ == self.entries@[j].name@ && r@[j].1
                        == self.entries@[j].handle,
            decreases self.entries@.len() - i,
        {
            r.push((self.entries[i].name.clone(), self.entries[i].handle));
            i = i + 1;
        }
        proof {
            assert forall|i: int|
                0 <= i < r@.len() implies #[trigger] self@.contains_key(r@[i].0@) && self@[r@[i].0@]
                == r@[i].1 by {
                assert(self.model@.contains_key(self.entries@[i].name@));
            }
            assert forall|k: Seq<char>| #[trigger] self@.contains_key(k) implies exists|i: int|
                0 <= i < r@.len() && r@[i].0@ == k by {
                let i = choose|i: int|
                    0 <= i < self.entries@.len() && self.entries@[i].name@ == k;
                assert(r@[i].0@ == k);
            }
            let names = self.entries@.map_values(|e: Entry| e.name@);
            assert forall|i: int, j: int| 0 <= i < j < names.len() implies names[i] != names[j] by {}
            assert(self.entries@.map_values(|e: Entry| e.name@).to_set() =~= self@.dom()) by {
                assert forall|k: Seq<char>| names.to_set().contains(k) <==> self@.dom().contains(k) by {
                    if self@.dom().contains(k) {
                        let i = choose|i: int|
                            0 <= i < self.entries@.len() && self.entries@[i].name@ == k;
                        assert(names[i] == k);
                    }
                    if names.to_set().contains(k) {
                        let i = choose|i: int| 0 <= i < names.len() && names[i] == k;
                        assert(self.model@.contains_key(self.entries@[i].name@));
                    }
                }
            }
            names.unique_seq_to_set();
        }
        r
    }
}

} // verus!
