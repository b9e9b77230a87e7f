//! The keys that are currently held down.
//!
//! A key is identified by its SDL key code (the `i32` value of
//! `sdl2::keyboard::Keycode`).
use vstd::prelude::*;

verus! {

/// Index of the first occurrence of `key` in `keys`, if there is one.
pub open spec fn first_index_of(keys: Seq<i32>, key: i32) -> int {
    choose|n: int| 0 <= n < keys.len() && keys[n] == key && forall|j: int| 0 <= j < n ==> keys[j] != key
}

/// What releasing `key` does to the sequence of held keys: the first
/// occurrence of `key` is removed by moving the last key into its place
/// (a swap-remove); a key that is not held leaves the sequence unchanged.
pub open spec fn released(keys: Seq<i32>, key: i32) -> Seq<i32> {
    if keys.contains(key) {
        let n = first_index_of(keys, key);
        keys.update(n, keys.last()).drop_last()
    } else {
        keys
    }
}

/// The smallest index holding `key` is well defined whenever `key` occurs.
pub proof fn lemma_first_index_of(keys: Seq<i32>, key: i32)
    requires
        keys.contains(key),
    ensures
        0 <= first_index_of(keys, key) < keys.len(),
        keys[first_index_of(keys, key)] == key,
        forall|j: int| 0 <= j < first_index_of(keys, key) ==> keys[j] != key,
{
    let i = choose|i: int| 0 <= i < keys.len() && keys[i] == key;
    lemma_smallest_witness(keys, key, i);
}

proof fn lemma_smallest_witness(keys: Seq<i32>, key: i32, i: int)
    requires
        0 <= i < keys.len(),
        keys[i] == key,
    ensures
        exists|n: int| 0 <= n < keys.len() && keys[n] == key && forall|j: int| 0 <= j < n ==> keys[j] != key,
    decreases i,
{
    if exists|j: int| 0 <= j < i && keys[j] == key {
        let j = choose|j: int| 0 <= j < i && keys[j] == key;
        lemma_smallest_witness(keys, key, j);
    } else {
        assert(forall|j: int| 0 <= j < i ==> keys[j] != key);
    }
}

/// Releasing a key right after pressing it gives back exactly the keys that
/// were held before the press, whether or not that key was already held.
pub proof fn lemma_key_up_undoes_key_down(keys: Seq<i32>, key: i32)
    ensures
        released(keys.push(key), key) == keys,
{
    let s = keys.push(key);
    assert(s[keys.len() as int] == key);
    assert(s.contains(key));
    lemma_first_index_of(s, key);
    let n = first_index_of(s, key);
    assert(s.update(n, s.last()) =~= s);
    assert(s.drop_last() =~= keys);
}

/// Releasing a key takes exactly one occurrence of it away from the held
/// keys when it is held, and nothing otherwise; every other key keeps its
/// multiplicity.
pub proof fn lemma_key_up_releases_one(keys: Seq<i32>, key: i32)
    ensures
        released(keys, key).to_multiset() =~= keys.to_multiset().remove(key),
        released(keys, key).len() == (if keys.contains(key) {
            keys.len() - 1
        } else {
            keys.len() as int
        }),
{
    broadcast use vstd::seq_lib::group_seq_properties;
    broadcast use vstd::multiset::group_multiset_axioms;
    broadcast use vstd::multiset::group_multiset_properties;
    broadcast use vstd::seq_lib::to_multiset_update;

    if keys.contains(key) {
        lemma_first_index_of(keys, key);
        let n = first_index_of(keys, key);
        let l = keys.last();
        let u = keys.update(n, l);
        assert(u.last() == l);
        assert(u.to_multiset() == keys.to_multiset().insert(l).remove(key));
        assert(u.drop_last().push(l) =~= u);
        assert(u.to_multiset() =~= u.drop_last().to_multiset().insert(l));
        assert(keys.to_multiset().count(key) > 0);
        let a = keys.to_multiset();
        let d = u.drop_last().to_multiset();
        assert forall|v: i32| d.count(v) == a.remove(key).count(v) by {
            assert(d.insert(l).count(v) == a.insert(l).remove(key).count(v));
        }
        assert(d =~= a.remove(key));
    } else {
        assert(keys.to_multiset().count(key) == 0);
    }
}

/// When no key is held twice, releasing a key leaves it no longer held and
/// still no key held twice.
pub proof fn lemma_key_up_releases_distinct(keys: Seq<i32>, key: i32)
    requires
        keys.no_duplicates(),
    ensures
        !released(keys, key).contains(key),
        released(keys, key).no_duplicates(),
{
    broadcast use vstd::seq_lib::group_seq_properties;
    broadcast use vstd::multiset::group_multiset_axioms;

    lemma_key_up_releases_one(keys, key);
    keys.lemma_multiset_has_no_duplicates();
    let r = released(keys, key);
    assert forall|x: i32| r.to_multiset().contains(x) implies r.to_multiset().count(x) == 1 by {
        assert(keys.to_multiset().contains(x));
    }
    r.lemma_multiset_has_no_duplicates_conv();
    if r.contains(key) {
        assert(r.to_multiset().count(key) > 0);
        assert(keys.to_multiset().count(key) == 1);
    }
}

/// Tracks which keys are held down, in the order of the key-down events
/// (up to the reordering that releasing a key causes).
pub struct InputHandler {
    active_keys: Vec<i32>,
}

impl View for InputHandler {
    type V = Seq<i32>;

    closed spec fn view(&self) -> Seq<i32> {
        self.active_keys@
    }
}

impl Default for InputHandler {
    /// No key is held.
    fn default() -> (res: InputHandler)
        ensures
            res@ == Seq::<i32>::empty(),
    {
        InputHandler { active_keys: Vec::with_capacity(10) }
    }
}

impl InputHandler {
    /// Records that `key` went down: it is appended to the held keys.
    pub fn on_key_down(&mut self, key: i32)
        ensures
            final(self)@ == old(self)@.push(key),
    {
        self.active_keys.push(key);
    }

    /// Records that `key` went up: its first occurrence among the held keys
    /// is swap-removed; nothing changes when it is not held.
    pub fn on_key_up(&mut self, key: i32)
        ensures
            final(self)@ == released(old(self)@, key),
    {
        match self.position(key) {
            Some(n) => {
                proof {
                    lemma_first_index_of(self@, key);
                }
                self.active_keys.swap_remove(n);
            },
            None => {},
        }
    }

    /// The index of the first held occurrence of `key`.
    pub fn position(&self, key: i32) -> (res: Option<usize>)
        ensures
            res is None <==> !self@.contains(key),
            res matches Some(n) ==> n < self@.len() && self@[n as int] == key && (forall|j: int|
                0 <= j < n ==> self@[j] != key),
    {
        let len = self.active_keys.len();
        let mut i: usize = 0;
        while i < len
            invariant
                len == self@.len(),
                i <= len,
                forall|j: int| 0 <= j < i ==> self@[j] != key,
            decreases len - i,
        {
            if self.active_keys[i] == key {
                return Some(i);
            }
            i = i + 1;
        }
        None
    }

    /// The held keys, oldest first.
    pub fn active_keys(&self) -> (res: &Vec<i32>)
        ensures
            res@ == self@,
    {
        &self.active_keys
    }

    /// Whether `key` is held.
    pub fn is_active(&self, key: i32) -> (res: bool)
        ensures
            res == self@.contains(key),
    {
        self.position(key).is_some()
    }
}

} // verus!
