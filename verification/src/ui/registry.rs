//! `UiId` → final layout rectangle registry.
//!
//! After a frame is built, tooling (tutorials, overlays, accessibility) can
//! look up the on-screen position of a named element via
//! [`Registry::rect`] / [`Registry::hit_rect`]. The registry only stores and
//! returns rectangles, so it works with any rectangle type `R`.

use crate::ui_model::ids::UiId;
use vstd::prelude::*;

verus! {

/// The names of the registered elements, in insertion order.
pub open spec fn entry_keys<R>(entries: Seq<(UiId, R, R)>) -> Seq<Seq<char>> {
    entries.map_values(|e: (UiId, R, R)| e.0@)
}

/// The map from names to (visual, hit-test) rectangles that `entries` holds.
pub open spec fn entries_map<R>(entries: Seq<(UiId, R, R)>) -> Map<Seq<char>, (R, R)> {
    Map::new(
        |k: Seq<char>| entry_keys(entries).contains(k),
        |k: Seq<char>|
            {
                let i = entry_keys(entries).index_of(k);
                (entries[i].1, entries[i].2)
            },
    )
}

/// The map holds exactly the names in `entries`, so it is finite.
proof fn lemma_entries_finite<R>(entries: Seq<(UiId, R, R)>)
    ensures
        entries_map(entries).dom() == entry_keys(entries).to_set(),
        entries_map(entries).dom().finite(),
{
    assert(entries_map(entries).dom() =~= entry_keys(entries).to_set());
    vstd::seq_lib::seq_to_set_is_finite(entry_keys(entries));
}

/// Registered visual and hit-test rectangles, keyed by element name.
#[derive(Clone, Debug)]
pub struct Registry<R> {
    /// One entry per registered name; no name occurs twice.
    entries: Vec<(UiId, R, R)>,
}

impl<R> View for Registry<R> {
    type V = Map<Seq<char>, (R, R)>;

    closed spec fn view(&self) -> Map<Seq<char>, (R, R)> {
        entries_map(self.entries@)
    }
}

/// In a list without repeated names, the map holds entry `j` under its name.
proof fn lemma_entry_lookup<R>(entries: Seq<(UiId, R, R)>, j: int)
    requires
        entry_keys(entries).no_duplicates(),
        0 <= j < entries.len(),
    ensures
        entries_map(entries).contains_key(entries[j].0@),
        entries_map(entries)[entries[j].0@] == (entries[j].1, entries[j].2),
{
    let keys = entry_keys(entries);
    assert(keys[j] == entries[j].0@);
    let i = keys.index_of(entries[j].0@);
    assert(keys.contains(entries[j].0@));
    assert(keys[i] == keys[j]);
}

impl<R: Copy> Default for Registry<R> {
    fn default() -> (r: Self)
        ensures
            r.wf(),
            r@ == Map::<Seq<char>, (R, R)>::empty(),
            r@.dom().finite(),
    {
        Registry::new()
    }
}

impl<R: Copy> Registry<R> {
    /// A well-formed registry holds finitely many names.
    pub proof fn lemma_finite(&self)
        requires
            self.wf(),
        ensures
            self@.dom().finite(),
    {
        lemma_entries_finite(self.entries@);
    }

    /// No name is registered twice.
    pub closed spec fn wf(&self) -> bool {
        entry_keys(self.entries@).no_duplicates()
    }

    pub fn new() -> (r: Self)
        ensures
            r.wf(),
            r@ == Map::<Seq<char>, (R, R)>::empty(),
            r@.dom().finite(),
    {
        let r = Registry { entries: Vec::new() };
        proof {
            assert(r@ =~= Map::<Seq<char>, (R, R)>::empty());
            lemma_entries_finite(r.entries@);
        }
        r
    }

    /// Position of the entry named like `id`, if any.
    fn find(&self, id: &UiId) -> (r: Option<usize>)
        requires
            self.wf(),
        ensures
            match r {
                Some(i) => i < self.entries@.len() && self.entries@[i as int].0@ == id@,
                None => !entry_keys(self.entries@).contains(id@),
            },
    {
        let n = self.entries.len();
        let mut i: usize = 0;
        while i < n
            invariant
                n == self.entries@.len(),
                i <= n,
                forall|j: int| 0 <= j < i ==> self.entries@[j].0@ != id@,
            decreases n - i,
        {
            if self.entries[i].0 == *id {
                return Some(i);
            }
            i = i + 1;
        }
        proof {
            let keys = entry_keys(self.entries@);
            assert forall|j: int| 0 <= j < keys.len() implies keys[j] != id@ by {
                assert(keys[j] == self.entries@[j].0@);
            }
        }
        None
    }

    /// Register (or overwrite) the visual and hit-test rectangles for `id`.
    pub fn register(&mut self, id: UiId, rect: R, hit_rect: R)
        requires
            old(self).wf(),
        ensures
            final(self).wf(),
            final(self)@ == old(self)@.insert(id@, (rect, hit_rect)),
            final(self)@.dom().finite(),
    {
        let ghost k = id@;
        let ghost before = self.entries@;
        match self.find(&id) {
            Some(i) => {
                self.entries.set(i, (id, rect, hit_rect));
                proof {
                    let after = self.entries@;
                    assert(entry_keys(after) =~= entry_keys(before));
                    assert forall|key: Seq<char>| #[trigger]
                        entries_map(after).contains_key(key) == old(self)@.insert(
                            k,
                            (rect, hit_rect),
                        ).contains_key(key) by {
                        if key == k {
                            assert(entry_keys(before)[i as int] == k);
                        }
                    }
                    assert forall|key: Seq<char>| #[trigger]
                        entries_map(after).contains_key(key) implies entries_map(after)[key]
                        == old(self)@.insert(k, (rect, hit_rect))[key] by {
                        let j = entry_keys(after).index_of(key);
                        assert(entry_keys(after)[j] == after[j].0@);
                        assert(entry_keys(after).no_duplicates());
                        lemma_entry_lookup(after, j);
                        if j != i {
                            assert(before[j] == after[j]);
                            assert(entry_keys(before)[j] == key);
                            assert(entry_keys(before)[i as int] == k);
                            assert(key != k);
                            lemma_entry_lookup(before, j);
                        } else {
                            assert(after[j].0@ == k);
                            assert(key == k);
                        }
                    }
                    assert(entries_map(after) =~= old(self)@.insert(k, (rect, hit_rect)));
                    lemma_entries_finite(after);
                }
            },
            None => {
                self.entries.push((id, rect, hit_rect));
                proof {
                    let after = self.entries@;
                    assert(entry_keys(after) =~= entry_keys(before).push(k));
                    assert forall|key: Seq<char>| #[trigger]
                        entries_map(after).contains_key(key) == old(self)@.insert(
                            k,
                            (rect, hit_rect),
                        ).contains_key(key) by {
                        if entry_keys(before).contains(key) {
                            let j = entry_keys(before).index_of(key);
                            assert(entry_keys(after)[j] == key);
                        }
                        if entry_keys(after).contains(key) && key != k {
                            let j = entry_keys(after).index_of(key);
                            assert(j < before.len());
                            assert(entry_keys(before)[j] == key);
                        }
                        if key == k {
                            assert(entry_keys(after)[before.len() as int] == k);
                        }
                    }
                    assert forall|key: Seq<char>| #[trigger]
                        entries_map(after).contains_key(key) implies entries_map(after)[key]
                        == old(self)@.insert(k, (rect, hit_rect))[key] by {
                        let j = entry_keys(after).index_of(key);
                        assert(entry_keys(after)[j] == after[j].0@);
                        lemma_entry_lookup(after, j);
                        if j < before.len() {
                            assert(before[j] == after[j]);
                            lemma_entry_lookup(before, j);
                        }
                    }
                    assert(entries_map(after) =~= old(self)@.insert(k, (rect, hit_rect)));
                    lemma_entries_finite(after);
                }
            },
        }
    }

    /// Visual ("ink") rectangle registered for `id`.
    pub fn rect(&self, id: &UiId) -> (r: Option<R>)
        requires
            self.wf(),
        ensures
            r == (if self@.contains_key(id@) {
                Some(self@[id@].0)
            } else {
                None
            }),
    {
        match self.find(id) {
            Some(i) => {
                proof {
                    lemma_entry_lookup(self.entries@, i as int);
                }
                Some(self.entries[i].1)
            },
            None => None,
        }
    }

    /// Hit-test rectangle registered for `id` (may be larger than the visual
    /// rect for touch-friendly targets).
    pub fn hit_rect(&self, id: &UiId) -> (r: Option<R>)
        requires
            self.wf(),
        ensures
            r == (if self@.contains_key(id@) {
                Some(self@[id@].1)
            } else {
                None
            }),
    {
        match self.find(id) {
            Some(i) => {
                proof {
                    lemma_entry_lookup(self.entries@, i as int);
                }
                Some(self.entries[i].2)
            },
            None => None,
        }
    }

    /// Remove all entries.
    pub fn clear(&mut self)
        ensures
            final(self).wf(),
            final(self)@ == Map::<Seq<char>, (R, R)>::empty(),
            final(self)@.dom().finite(),
    {
        self.entries.clear();
        proof {
            assert(self@ =~= Map::<Seq<char>, (R, R)>::empty());
            lemma_entries_finite(self.entries@);
        }
    }

    /// Number of registered entries.
    pub fn len(&self) -> (r: usize)
        requires
            self.wf(),
        ensures
            r == self@.len(),
    {
        proof {
            let keys = entry_keys(self.entries@);
            keys.unique_seq_to_set();
            assert(self@.dom() =~= keys.to_set());
        }
        self.entries.len()
    }

    /// Returns `true` when no entry is registered.
    pub fn is_empty(&self) -> (r: bool)
        requires
            self.wf(),
        ensures
            r == (self@.len() == 0),
    {
        self.len() == 0
    }
}

/// Reading a name right after registering it gives back the rectangles just
/// registered; every other name reads as before.
pub proof fn law_register_then_read<R>(
    m: Map<Seq<char>, (R, R)>,
    name: Seq<char>,
    rect: R,
    hit_rect: R,
    other: Seq<char>,
)
    requires
        other != name,
    ensures
        m.insert(name, (rect, hit_rect)).contains_key(name),
        m.insert(name, (rect, hit_rect))[name] == (rect, hit_rect),
        m.insert(name, (rect, hit_rect)).contains_key(other) == m.contains_key(other),
        m.contains_key(other) ==> m.insert(name, (rect, hit_rect))[other] == m[other],
{
}

/// Registering a name adds one entry when the name is new and none when it
/// is already registered; the registry stays finite.
pub proof fn law_register_len<R>(
    m: Map<Seq<char>, (R, R)>,
    name: Seq<char>,
    rect: R,
    hit_rect: R,
)
    requires
        m.dom().finite(),
    ensures
        m.insert(name, (rect, hit_rect)).dom().finite(),
        m.insert(name, (rect, hit_rect)).len() == m.len() + if m.contains_key(name) {
            0int
        } else {
            1int
        },
{
    if m.contains_key(name) {
        assert(m.insert(name, (rect, hit_rect)).dom() =~= m.dom());
    } else {
        assert(m.insert(name, (rect, hit_rect)).dom() =~= m.dom().insert(name));
    }
}

/// Registering a name that is already registered replaces its rectangles
/// without adding an entry.
pub proof fn law_reregister_keeps_len<R>(
    m: Map<Seq<char>, (R, R)>,
    name: Seq<char>,
    rect: R,
    hit_rect: R,
)
    requires
        m.dom().finite(),
        m.contains_key(name),
    ensures
        m.insert(name, (rect, hit_rect)).len() == m.len(),
{
    assert(m.insert(name, (rect, hit_rect)).dom() =~= m.dom());
}

} // verus!
