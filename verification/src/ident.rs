//! The identifier map: external identifiers on one side, dense internal
//! indices on the other.
//!
//! Indices are handed out in increasing order and never reused. Retiring an
//! identifier leaves a tombstone at its index, so the whole map is a list of
//! slots: position `i` holds the identifier that owns index `i`, or nothing.

use vstd::prelude::*;
use vstd::hash_map::StringHashMap;

verus! {

/// A slot list: position `i` holds the identifier living at index `i`.
pub type Slots = Seq<Option<Seq<char>>>;

/// Identifier `id` lives at index `i`.
pub open spec fn holds_at(s: Slots, i: int, id: Seq<char>) -> bool {
    0 <= i < s.len() && s[i] == Some(id)
}

/// Identifier `id` lives somewhere in `s`.
pub open spec fn is_live(s: Slots, id: Seq<char>) -> bool {
    exists|i: int| holds_at(s, i, id)
}

/// No identifier lives at two indices.
pub open spec fn distinct(s: Slots) -> bool {
    forall|i: int, j: int, id: Seq<char>| holds_at(s, i, id) && holds_at(s, j, id) ==> i == j
}

/// Number of occupied slots.
pub open spec fn live_count(s: Slots) -> nat
    decreases s.len(),
{
    if s.len() == 0 {
        0
    } else {
        live_count(s.drop_last()) + if s.last() is Some { 1nat } else { 0nat }
    }
}

/// The occupied slots as `(index, identifier)` pairs, by increasing index.
pub open spec fn live_pairs(s: Slots) -> Seq<(int, Seq<char>)>
    decreases s.len(),
{
    if s.len() == 0 {
        Seq::empty()
    } else if s.last() is Some {
        live_pairs(s.drop_last()).push((s.len() - 1, s.last()->0))
    } else {
        live_pairs(s.drop_last())
    }
}

/// `s` with every slot that holds `id` turned into a tombstone.
pub open spec fn retired(s: Slots, id: Seq<char>) -> Slots {
    Seq::new(s.len(), |i: int| if s[i] == Some(id) { None } else { s[i] })
}

/// The slot that an optional identifier stands for.
pub open spec fn slot_view(o: Option<String>) -> Option<Seq<char>> {
    match o {
        Some(s) => Some(s@),
        None => None,
    }
}

/// There are as many pairs as occupied slots.
pub proof fn lemma_live_pairs_len(s: Slots)
    ensures
        live_pairs(s).len() == live_count(s),
    decreases s.len(),
{
    if s.len() > 0 {
        lemma_live_pairs_len(s.drop_last());
    }
}

/// An occupied slot list has at most as many occupants as slots.
pub proof fn lemma_live_count_bound(s: Slots)
    ensures
        live_count(s) <= s.len(),
    decreases s.len(),
{
    if s.len() > 0 {
        lemma_live_count_bound(s.drop_last());
    }
}

/// Appending a slot adds one to the count exactly when it is occupied.
pub proof fn lemma_live_count_push(s: Slots, o: Option<Seq<char>>)
    ensures
        live_count(s.push(o)) == live_count(s) + if o is Some { 1nat } else { 0nat },
{
    assert(s.push(o).drop_last() =~= s);
}

/// Clearing one occupied slot takes one from the count.
pub proof fn lemma_live_count_clear(s: Slots, i: int)
    requires
        0 <= i < s.len(),
        s[i] is Some,
    ensures
        live_count(s.update(i, None)) + 1 == live_count(s),
    decreases s.len(),
{
    let t = s.update(i, None);
    if i == s.len() - 1 {
        assert(t.drop_last() =~= s.drop_last());
    } else {
        assert(t.drop_last() =~= s.drop_last().update(i, None));
        lemma_live_count_clear(s.drop_last(), i);
    }
}

/// In a list without repeats, retiring an identifier clears at most its one slot.
pub proof fn lemma_retired_is_update(s: Slots, i: int, id: Seq<char>)
    requires
        distinct(s),
        holds_at(s, i, id),
    ensures
        retired(s, id) == s.update(i, None),
{
    assert forall|j: int| 0 <= j < s.len() implies retired(s, id)[j] == s.update(i, None)[j] by {
        if s[j] == Some(id) {
            assert(holds_at(s, j, id));
        }
    }
    assert(retired(s, id) =~= s.update(i, None));
}

/// Retiring an identifier that is not live changes nothing.
pub proof fn lemma_retired_absent(s: Slots, id: Seq<char>)
    requires
        !is_live(s, id),
    ensures
        retired(s, id) == s,
{
    assert forall|j: int| 0 <= j < s.len() implies retired(s, id)[j] == s[j] by {
        if s[j] == Some(id) {
            assert(holds_at(s, j, id));
        }
    }
    assert(retired(s, id) =~= s);
}

/// Bidirectional map between identifiers and internal indices.
pub struct IdMap {
    slots: Vec<Option<String>>,
    index: StringHashMap<usize>,
}

impl View for IdMap {
    type V = Slots;

    closed spec fn view(&self) -> Slots {
        self.slots@.map_values(|o: Option<String>| slot_view(o))
    }
}

impl IdMap {
    /// The forward direction: identifier to index.
    pub closed spec fn forward(&self) -> Map<Seq<char>, usize> {
        self.index@
    }

    /// The two directions agree and no identifier lives twice.
    pub closed spec fn wf(&self) -> bool {
        &&& forall|i: int, id: Seq<char>| #[trigger]
            holds_at(self@, i, id) ==> self.index@.contains_key(id) && self.index@[id] == i
        &&& forall|id: Seq<char>| #[trigger]
            self.index@.contains_key(id) ==> holds_at(self@, self.index@[id] as int, id)
        &&& self.index@.dom().finite()
        &&& self.index@.len() == live_count(self@)
    }

    /// In a well-formed map the forward direction has exactly the live
    /// identifiers, each at the index where it lives, and nothing lives twice.
    pub proof fn lemma_wf(&self)
        requires
            self.wf(),
        ensures
            distinct(self@),
            forall|id: Seq<char>| self.forward().contains_key(id) <==> is_live(self@, id),
            forall|id: Seq<char>| #[trigger]
                self.forward().contains_key(id) ==> holds_at(self@, self.forward()[id] as int, id),
            self.forward().dom().len() == live_count(self@),
            live_pairs(self@).len() == live_count(self@),
    {
        lemma_live_pairs_len(self@);
        assert forall|i: int, j: int, id: Seq<char>|
            holds_at(self@, i, id) && holds_at(self@, j, id) implies i == j by {
            assert(self.index@[id] == i);
            assert(self.index@[id] == j);
        }
        assert forall|id: Seq<char>| self.forward().contains_key(id) <==> is_live(self@, id) by {
            if self.index@.contains_key(id) {
                assert(holds_at(self@, self.index@[id] as int, id));
            }
        }
    }

    /// The forward direction of a well-formed map has finitely many entries.
    pub proof fn lemma_forward_finite(&self)
        requires
            self.wf(),
        ensures
            self.forward().dom().finite(),
    {
    }

    /// An empty map; the next index is 0.
    pub fn new() -> (m: IdMap)
        ensures
            m.wf(),
            m@ == Seq::<Option<Seq<char>>>::empty(),
    {
        let m = IdMap { slots: Vec::new(), index: StringHashMap::new() };
        assert(m@ =~= Seq::<Option<Seq<char>>>::empty());
        assert(m.index@.len() == 0);
        m
    }

    /// The index that the next assignment will hand out.
    pub fn next_index(&self) -> (n: usize)
        ensures
            n == self@.len(),
    {
        self.slots.len()
    }

    /// Number of live identifiers.
    pub fn len(&self) -> (n: usize)
        requires
            self.wf(),
        ensures
            n == live_count(self@),
    {
        self.index.len()
    }

    /// Whether no identifier is live.
    pub fn is_empty(&self) -> (b: bool)
        requires
            self.wf(),
        ensures
            b == (live_count(self@) == 0),
    {
        self.index.len() == 0
    }

    /// The index at which `id` lives, if it is live.
    pub fn lookup(&self, id: &str) -> (r: Option<usize>)
        requires
            self.wf(),
        ensures
            match r {
                Some(i) => holds_at(self@, i as int, id@),
                None => !is_live(self@, id@),
            },
    {
        match self.index.get(id) {
            Some(i) => Some(*i),
            None => {
                assert forall|i: int| !holds_at(self@, i, id@) by {
                    if holds_at(self@, i, id@) {
                        assert(self.index@.contains_key(id@));
                    }
                }
                None
            },
        }
    }

    /// The identifier living at `idx`, if any.
    pub fn reverse(&self, idx: usize) -> (r: Option<&String>)
        ensures
            match r {
                Some(s) => holds_at(self@, idx as int, s@),
                None => idx >= self@.len() || self@[idx as int] is None,
            },
    {
        if idx < self.slots.len() {
            match &self.slots[idx] {
                Some(s) => Some(s),
                None => None,
            }
        } else {
            None
        }
    }

    /// Retires `id`: its slot becomes a tombstone and the index it had is
    /// returned. An unknown identifier changes nothing.
    pub fn retire(&mut self, id: &str) -> (r: Option<usize>)
        requires
            old(self).wf(),
        ensures
            final(self).wf(),
            final(self)@ == retired(old(self)@, id@),
            match r {
                Some(i) => holds_at(old(self)@, i as int, id@),
                None => !is_live(old(self)@, id@),
            },
    {
        let found = self.lookup(id);
        match found {
            Some(i) => {
                proof {
                    old(self).lemma_wf();
                    lemma_retired_is_update(old(self)@, i as int, id@);
                    lemma_live_count_clear(old(self)@, i as int);
                }
                self.slots.set(i, None);
                self.index.remove(id);
                assert(self@ =~= old(self)@.update(i as int, None));
                assert forall|j: int, x: Seq<char>| #[trigger] holds_at(self@, j, x) implies
                    self.index@.contains_key(x) && self.index@[x] == j by {
                    assert(holds_at(old(self)@, j, x));
                }
                assert forall|x: Seq<char>| #[trigger] self.index@.contains_key(x) implies holds_at(
                    self@,
                    self.index@[x] as int,
                    x,
                ) by {
                    assert(holds_at(old(self)@, old(self).index@[x] as int, x));
                }
                Some(i)
            },
            None => {
                proof {
                    lemma_retired_absent(old(self)@, id@);
                }
                None
            },
        }
    }

    /// Gives `id` a fresh index, retiring the one it had. The fresh index is
    /// the number of slots so far.
    pub fn assign_new(&mut self, id: String) -> (idx: usize)
        requires
            old(self).wf(),
        ensures
            final(self).wf(),
            idx == old(self)@.len(),
            final(self)@ == retired(old(self)@, id@).push(Some(id@)),
    {
        let _ = self.retire(id.as_str());
        let ghost mid = *self;
        let idx = self.slots.len();
        proof {
            lemma_live_count_push(mid@, Some(id@));
            lemma_live_count_bound(mid@);
            assert(!is_live(mid@, id@)) by {
                assert forall|i: int| !holds_at(mid@, i, id@) by {}
            }
            assert(!mid.index@.contains_key(id@)) by {
                if mid.index@.contains_key(id@) {
                    assert(holds_at(mid@, mid.index@[id@] as int, id@));
                }
            }
        }
        self.slots.push(Some(id.clone()));
        self.index.insert(id, idx);
        assert(self@ =~= mid@.push(Some(id@)));
        assert forall|j: int, x: Seq<char>| #[trigger] holds_at(self@, j, x) implies
            self.index@.contains_key(x) && self.index@[x] == j by {
            if j < idx {
                assert(holds_at(mid@, j, x));
            }
        }
        assert forall|x: Seq<char>| #[trigger] self.index@.contains_key(x) implies holds_at(
            self@,
            self.index@[x] as int,
            x,
        ) by {
            if x != id@ {
                assert(holds_at(mid@, mid.index@[x] as int, x));
            }
        }
        idx
    }

    /// Appends a slot as it stands: a tombstone, or an identifier at the
    /// next index. An identifier that is already live is refused and
    /// nothing changes.
    pub fn push_slot(&mut self, slot: Option<String>) -> (ok: bool)
        requires
            old(self).wf(),
        ensures
            final(self).wf(),
            ok <==> !(slot is Some && is_live(old(self)@, slot->Some_0@)),
            ok ==> final(self)@ == old(self)@.push(slot_view(slot)),
            !ok ==> final(self)@ == old(self)@,
    {
        match slot {
            Some(id) => {
                if self.lookup(id.as_str()).is_some() {
                    return false;
                }
                proof {
                    lemma_retired_absent(old(self)@, id@);
                }
                let _ = self.assign_new(id);
                true
            },
            None => {
                proof {
                    lemma_live_count_push(old(self)@, None);
                }
                self.slots.push(None);
                assert(self@ =~= old(self)@.push(None));
                assert forall|j: int, x: Seq<char>| #[trigger] holds_at(self@, j, x) implies
                    self.index@.contains_key(x) && self.index@[x] == j by {
                    assert(holds_at(old(self)@, j, x));
                }
                assert forall|x: Seq<char>| #[trigger] self.index@.contains_key(x) implies holds_at(
                    self@,
                    self.index@[x] as int,
                    x,
                ) by {
                    assert(holds_at(old(self)@, old(self).index@[x] as int, x));
                }
                true
            },
        }
    }

    /// The live mappings as `(index, identifier)` pairs, by increasing index.
    pub fn live(&self) -> (out: Vec<(usize, String)>)
        ensures
            out@.len() == live_pairs(self@).len(),
            forall|k: int| 0 <= k < out@.len() ==> (#[trigger] out@[k]).0 as int == live_pairs(self@)[k].0
                && out@[k].1@ == live_pairs(self@)[k].1,
    {
        let mut out: Vec<(usize, String)> = Vec::new();
        let mut i: usize = 0;
        while i < self.slots.len()
            invariant
                i <= self.slots.len(),
                out@.len() == live_pairs(self@.take(i as int)).len(),
                forall|k: int| 0 <= k < out@.len() ==> (#[trigger] out@[k]).0 as int == live_pairs(
                    self@.take(i as int),
                )[k].0 && out@[k].1@ == live_pairs(self@.take(i as int))[k].1,
            decreases self.slots.len() - i,
        {
            proof {
                assert(self@.take(i as int + 1).drop_last() =~= self@.take(i as int));
            }
            match &self.slots[i] {
                Some(s) => {
                    out.push((i, s.clone()));
                },
                None => {},
            }
            i += 1;
        }
        assert(self@.take(i as int) =~= self@);
        out
    }
}

} // verus!
