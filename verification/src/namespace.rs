//! The namespace manager: a set of collections, each under its own name
//! and in its own subdirectory of one root.
//!
//! What is done to one namespace leaves every other as it was.

use vstd::prelude::*;
use crate::backend::{Distance, GraphParams};
use crate::collection::{
    deleted,
    record_error,
    state_ok,
    upserted,
    Collection,
    EngineError,
    State,
    Stats,
    compacted,
};
use crate::ident::{is_live, live_count};
use crate::backup::GraphUse;
use crate::disk::{open_stored, opened, Stored};
use crate::persist::LoadError;
use crate::text::{chars_of, push_all, string_of, text_is};

verus! {

/// Longest namespace name, in characters.
pub const MAX_NAME_CHARS: usize = 128;

/// A character that a namespace name may hold: an ASCII letter or digit,
/// an underscore, a full stop or a hyphen.
pub open spec fn name_char(c: char) -> bool {
    ('A' <= c && c <= 'Z') || ('a' <= c && c <= 'z') || ('0' <= c && c <= '9') || c == '_' || c
        == '.' || c == '-'
}

/// A namespace name is acceptable: 1 to 128 characters, each of them
/// allowed, and not one of the two names that every directory has for
/// itself and its parent.
pub open spec fn name_ok(name: Seq<char>) -> bool {
    &&& 1 <= name.len() <= MAX_NAME_CHARS
    &&& forall|i: int| 0 <= i < name.len() ==> name_char(#[trigger] name[i])
    &&& name != seq!['.']
    &&& name != seq!['.', '.']
}

/// Whether a character may stand in a namespace name.
pub fn is_name_char(c: char) -> (b: bool)
    ensures
        b == name_char(c),
{
    ('A' <= c && c <= 'Z') || ('a' <= c && c <= 'z') || ('0' <= c && c <= '9') || c == '_' || c
        == '.' || c == '-'
}

/// Whether a namespace name is acceptable.
pub fn valid_name(name: &str) -> (b: bool)
    ensures
        b == name_ok(name@),
{
    let v = chars_of(name);
    if v.len() < 1 || v.len() > MAX_NAME_CHARS {
        return false;
    }
    let mut i: usize = 0;
    while i < v.len()
        invariant
            i <= v.len(),
            v@ == name@,
            forall|k: int| 0 <= k < i ==> name_char(#[trigger] v@[k]),
        decreases v.len() - i,
    {
        if !is_name_char(v[i]) {
            assert(!name_char(name@[i as int]));
            return false;
        }
        i += 1;
    }
    if v.len() == 1 && v[0] == '.' {
        assert(v@ =~= seq!['.']);
        return false;
    }
    if v.len() == 2 && v[0] == '.' && v[1] == '.' {
        assert(v@ =~= seq!['.', '.']);
        return false;
    }
    assert(v@ != seq!['.']) by {
        if v@ == seq!['.'] {
            assert(v@[0] == '.');
        }
    }
    assert(v@ != seq!['.', '.']) by {
        if v@ == seq!['.', '.'] {
            assert(v@[0] == '.' && v@[1] == '.');
        }
    }
    true
}

/// Why the manager refused an operation.
#[derive(Clone, Copy, Debug, PartialEq, Eq, Structural)]
pub enum NamespaceError {
    /// The name is not acceptable.
    InvalidName,
    /// A namespace of this name exists.
    AlreadyExists,
    /// No namespace of this name exists.
    NotFound,
    /// The collection refused the operation.
    Engine(EngineError),
    /// The saved collection was not opened.
    Load(LoadError),
}

/// One namespace: a name and the collection it owns.
pub struct Namespace {
    name: String,
    collection: Collection,
}

/// The namespaces of a manager, as mathematics: names with the state of
/// their collections, in the order in which they were created.
pub type Spaces = Seq<(Seq<char>, State)>;

/// Namespace `name` stands at position `i`.
pub open spec fn space_at(m: Spaces, i: int, name: Seq<char>) -> bool {
    0 <= i < m.len() && m[i].0 == name
}

/// A namespace of this name exists.
pub open spec fn has_space(m: Spaces, name: Seq<char>) -> bool {
    exists|i: int| space_at(m, i, name)
}

/// The state of namespace `name`.
pub open spec fn space_state(m: Spaces, name: Seq<char>) -> State {
    m[choose|i: int| space_at(m, i, name)].1
}

/// Every namespace but `name` is in `b` what it is in `a`.
pub open spec fn others_same(a: Spaces, b: Spaces, name: Seq<char>) -> bool {
    forall|other: Seq<char>|
        other != name ==> (#[trigger] has_space(b, other) == has_space(a, other)) && (has_space(
            a,
            other,
        ) ==> space_state(b, other) == space_state(a, other))
}

/// The state of a collection that was just created.
pub open spec fn fresh(dimension: usize, distance: Distance, params: GraphParams) -> State {
    State {
        dimension,
        distance,
        params,
        generation: 0,
        slots: Seq::empty(),
        vectors: Seq::empty(),
        texts: Seq::empty(),
    }
}

/// A set of named collections under one root directory.
pub struct NamespaceManager {
    root: String,
    spaces: Vec<Namespace>,
}

impl View for NamespaceManager {
    type V = Spaces;

    closed spec fn view(&self) -> Spaces {
        Seq::new(self.spaces@.len(), |i: int| (self.spaces@[i].name@, self.spaces@[i].collection@))
    }
}

impl NamespaceManager {
    /// The root directory.
    pub closed spec fn spec_root(&self) -> Seq<char> {
        self.root@
    }

    /// Every name is acceptable and stands once, and every collection is
    /// in order.
    pub closed spec fn wf(&self) -> bool {
        &&& forall|i: int| 0 <= i < self@.len() ==> name_ok(#[trigger] self@[i].0)
        &&& forall|i: int, j: int, name: Seq<char>|
            space_at(self@, i, name) && space_at(self@, j, name) ==> i == j
        &&& forall|i: int| 0 <= i < self.spaces@.len() ==> (#[trigger] self.spaces@[i]).collection.wf()
    }

    /// In a well-formed manager no name stands twice, every name is
    /// acceptable and every state is in order.
    pub proof fn lemma_wf(&self)
        requires
            self.wf(),
        ensures
            forall|i: int, j: int, name: Seq<char>|
                space_at(self@, i, name) && space_at(self@, j, name) ==> i == j,
            forall|i: int| 0 <= i < self@.len() ==> name_ok(#[trigger] self@[i].0) && state_ok(self@[i].1),
    {
        assert forall|i: int| 0 <= i < self@.len() implies name_ok(#[trigger] self@[i].0) && state_ok(
            self@[i].1,
        ) by {
            self.spaces@[i].collection.lemma_wf();
        }
    }

    /// A manager without namespaces.
    pub fn new(root: String) -> (m: NamespaceManager)
        ensures
            m.wf(),
            m@.len() == 0,
            m.spec_root() == root@,
    {
        NamespaceManager { root, spaces: Vec::new() }
    }

    /// The root directory.
    pub fn root(&self) -> (r: &String)
        ensures
            r@ == self.spec_root(),
    {
        &self.root
    }

    /// Number of namespaces.
    pub fn len(&self) -> (n: usize)
        ensures
            n == self@.len(),
    {
        self.spaces.len()
    }

    /// Position of namespace `name`.
    fn find(&self, name: &str) -> (r: Option<usize>)
        ensures
            match r {
                Some(i) => space_at(self@, i as int, name@),
                None => !has_space(self@, name@),
            },
    {
        let mut i: usize = 0;
        while i < self.spaces.len()
            invariant
                i <= self.spaces@.len(),
                forall|k: int| 0 <= k < i ==> !space_at(self@, k, name@),
            decreases self.spaces@.len() - i,
        {
            if text_is(self.spaces[i].name.as_str(), name) {
                return Some(i);
            }
            i += 1;
        }
        None
    }

    /// Whether a namespace of this name exists.
    pub fn contains(&self, name: &str) -> (b: bool)
        ensures
            b == has_space(self@, name@),
    {
        self.find(name).is_some()
    }

    /// The directory of namespace `name`: the root, a slash, the name.
    pub fn path_of(&self, name: &str) -> (p: String)
        ensures
            p@ == self.spec_root() + seq!['/'] + name@,
    {
        let mut out = chars_of(self.root.as_str());
        out.push('/');
        let n = chars_of(name);
        push_all(&mut out, &n);
        string_of(&out)
    }

    /// Creates an empty namespace. A name that is not acceptable or that
    /// exists, and parameters with a zero, are refused, in this order, and
    /// nothing changes.
    pub fn create(&mut self, name: &str, dimension: usize, metric: Distance, params: GraphParams) -> (r:
        Result<(), NamespaceError>)
        requires
            old(self).wf(),
        ensures
            final(self).wf(),
            final(self).spec_root() == old(self).spec_root(),
            r == if !name_ok(name@) {
                Err::<(), NamespaceError>(NamespaceError::InvalidName)
            } else if has_space(old(self)@, name@) {
                Err(NamespaceError::AlreadyExists)
            } else if !params.spec_valid() {
                Err(NamespaceError::Engine(EngineError::InvalidParams))
            } else {
                Ok(())
            },
            r is Err ==> final(self)@ == old(self)@,
            r is Ok ==> final(self)@ == old(self)@.push((name@, fresh(dimension, metric, params))),
    {
        if !valid_name(name) {
            return Err(NamespaceError::InvalidName);
        }
        if self.find(name).is_some() {
            return Err(NamespaceError::AlreadyExists);
        }
        let collection = match Collection::new(dimension, metric, params) {
            Ok(c) => c,
            Err(e) => {
                return Err(NamespaceError::Engine(e));
            },
        };
        let owned = string_of(&chars_of(name));
        self.spaces.push(Namespace { name: owned, collection });
        proof {
            assert(self@ =~= old(self)@.push((name@, fresh(dimension, metric, params))));
            assert forall|i: int, j: int, x: Seq<char>|
                space_at(self@, i, x) && space_at(self@, j, x) implies i == j by {
                if i < old(self)@.len() {
                    assert(space_at(old(self)@, i, x));
                }
                if j < old(self)@.len() {
                    assert(space_at(old(self)@, j, x));
                }
            }
            assert forall|i: int| 0 <= i < self@.len() implies name_ok(#[trigger] self@[i].0) by {
                if i < old(self)@.len() {
                    assert(self@[i] == old(self)@[i]);
                }
            }
        }
        Ok(())
    }

    /// Adds a namespace found on disk. The name is checked as in
    /// [`NamespaceManager::create`], then the files are opened; the result
    /// says what is to be done with the graph.
    pub fn load(&mut self, name: &str, stored: &Stored) -> (r: Result<GraphUse, NamespaceError>)
        requires
            old(self).wf(),
        ensures
            final(self).wf(),
            final(self).spec_root() == old(self).spec_root(),
            r == if !name_ok(name@) {
                Err::<GraphUse, NamespaceError>(NamespaceError::InvalidName)
            } else if has_space(old(self)@, name@) {
                Err(NamespaceError::AlreadyExists)
            } else {
                match opened(stored@, None, None) {
                    Ok(x) => Ok(x.1),
                    Err(e) => Err(NamespaceError::Load(e)),
                }
            },
            r is Err ==> final(self)@ == old(self)@,
            r is Ok ==> final(self)@ == old(self)@.push((name@, opened(stored@, None, None)->Ok_0.0)),
    {
        if !valid_name(name) {
            return Err(NamespaceError::InvalidName);
        }
        if self.find(name).is_some() {
            return Err(NamespaceError::AlreadyExists);
        }
        let (collection, graph_use) = match open_stored(stored, None, None) {
            Ok(x) => x,
            Err(e) => {
                return Err(NamespaceError::Load(e));
            },
        };
        let owned = string_of(&chars_of(name));
        self.spaces.push(Namespace { name: owned, collection });
        proof {
            assert(self@ =~= old(self)@.push((name@, opened(stored@, None, None)->Ok_0.0)));
            assert forall|i: int, j: int, x: Seq<char>|
                space_at(self@, i, x) && space_at(self@, j, x) implies i == j by {
                if i < old(self)@.len() {
                    assert(space_at(old(self)@, i, x));
                }
                if j < old(self)@.len() {
                    assert(space_at(old(self)@, j, x));
                }
            }
            assert forall|i: int| 0 <= i < self@.len() implies name_ok(#[trigger] self@[i].0) by {
                if i < old(self)@.len() {
                    assert(self@[i] == old(self)@[i]);
                }
            }
        }
        Ok(graph_use)
    }

    /// Removes a namespace and hands out its collection. The caller then
    /// removes the directory.
    pub fn drop(&mut self, name: &str) -> (r: Result<Collection, NamespaceError>)
        requires
            old(self).wf(),
        ensures
            final(self).wf(),
            final(self).spec_root() == old(self).spec_root(),
            r is Ok <==> has_space(old(self)@, name@),
            r is Err ==> r->Err_0 == NamespaceError::NotFound && final(self)@ == old(self)@,
            r is Ok ==> {
                let i = choose|i: int| space_at(old(self)@, i, name@);
                &&& final(self)@ == old(self)@.remove(i)
                &&& r->Ok_0@ == old(self)@[i].1
                &&& r->Ok_0.wf()
                &&& !has_space(final(self)@, name@)
            },
            others_same(old(self)@, final(self)@, name@),
    {
        match self.find(name) {
            Some(i) => {
                let ghost w = choose|w: int| space_at(old(self)@, w, name@);
                assert(space_at(old(self)@, i as int, name@));
                assert(w == i);
                let space = self.spaces.remove(i);
                proof {
                    assert(self@ =~= old(self)@.remove(i as int));
                    lemma_remove_spaces(old(self)@, i as int, name@);
                    assert forall|a: int, b: int, x: Seq<char>|
                        space_at(self@, a, x) && space_at(self@, b, x) implies a == b by {
                        let a0 = if a < i { a } else { a + 1 };
                        let b0 = if b < i { b } else { b + 1 };
                        assert(space_at(old(self)@, a0, x) && space_at(old(self)@, b0, x));
                    }
                    assert forall|a: int| 0 <= a < self@.len() implies name_ok(#[trigger] self@[a].0) by {
                        let a0 = if a < i { a } else { a + 1 };
                        assert(self@[a] == old(self)@[a0]);
                    }
                }
                Ok(space.collection)
            },
            None => {
                proof {
                    lemma_same_spaces(old(self)@, name@);
                }
                Err(NamespaceError::NotFound)
            },
        }
    }

    /// The names, in the order in which the namespaces were created.
    pub fn list(&self) -> (out: Vec<String>)
        ensures
            out@.len() == self@.len(),
            forall|i: int| 0 <= i < out@.len() ==> (#[trigger] out@[i])@ == self@[i].0,
    {
        let mut out: Vec<String> = Vec::new();
        let mut i: usize = 0;
        while i < self.spaces.len()
            invariant
                i <= self.spaces@.len(),
                out@.len() == i,
                forall|k: int| 0 <= k < i ==> (#[trigger] out@[k])@ == self@[k].0,
            decreases self.spaces@.len() - i,
        {
            out.push(self.spaces[i].name.clone());
            i += 1;
        }
        out
    }

    /// The collection of namespace `name`, for reading.
    pub fn open(&self, name: &str) -> (r: Option<&Collection>)
        requires
            self.wf(),
        ensures
            r is Some <==> has_space(self@, name@),
            r is Some ==> r->Some_0.wf() && r->Some_0@ == space_state(self@, name@),
    {
        match self.find(name) {
            Some(i) => {
                let ghost w = choose|w: int| space_at(self@, w, name@);
                assert(space_at(self@, i as int, name@));
                assert(w == i);
                Some(&self.spaces[i].collection)
            },
            None => None,
        }
    }

    /// Counts and settings of namespace `name`.
    pub fn stats(&self, name: &str) -> (r: Option<Stats>)
        requires
            self.wf(),
        ensures
            r is Some <==> has_space(self@, name@),
            r is Some ==> {
                let s = space_state(self@, name@);
                r->Some_0 == (Stats {
                    count: live_count(s.slots) as usize,
                    tombstones: (s.slots.len() - live_count(s.slots)) as usize,
                    dimension: s.dimension,
                    metric: s.distance,
                    params: s.params,
                    generation: s.generation,
                })
            },
    {
        match self.open(name) {
            Some(c) => Some(c.stats()),
            None => None,
        }
    }

    /// Writes a record into namespace `name`, as
    /// [`Collection::upsert`] does. No other namespace changes.
    pub fn upsert(&mut self, name: &str, id: String, vector: Vec<u32>, metadata: Vec<u8>) -> (r:
        Result<usize, NamespaceError>)
        requires
            old(self).wf(),
        ensures
            final(self).wf(),
            final(self).spec_root() == old(self).spec_root(),
            others_same(old(self)@, final(self)@, name@),
            has_space(final(self)@, name@) == has_space(old(self)@, name@),
            !has_space(old(self)@, name@) ==> r == Err::<usize, NamespaceError>(
                NamespaceError::NotFound,
            ) && final(self)@ == old(self)@,
            has_space(old(self)@, name@) ==> {
                let s = space_state(old(self)@, name@);
                match record_error(s.dimension, id@, vector@.len(), metadata@) {
                    Some(e) => r == Err::<usize, NamespaceError>(NamespaceError::Engine(e))
                        && final(self)@ == old(self)@,
                    None => r == Ok::<usize, NamespaceError>(s.slots.len() as usize) && space_state(
                        final(self)@,
                        name@,
                    ) == upserted(s, id@, vector@, metadata@),
                }
            },
    {
        match self.find(name) {
            Some(i) => {
                let ghost w = choose|w: int| space_at(old(self)@, w, name@);
                assert(space_at(old(self)@, i as int, name@));
                assert(w == i);
                let mut space = self.spaces.remove(i);
                let r = space.collection.upsert(id, vector, metadata);
                let ghost after = space.collection@;
                self.spaces.insert(i, space);
                proof {
                    assert(self@ =~= old(self)@.update(i as int, (name@, after)));
                    lemma_update_spaces(old(self)@, i as int, name@, after);
                    assert forall|a: int| 0 <= a < self.spaces@.len() implies (
                    #[trigger] self.spaces@[a]).collection.wf() by {
                        if a != i {
                            assert(self.spaces@[a] == old(self).spaces@[a]);
                        }
                    }
                }
                match r {
                    Ok(idx) => Ok(idx),
                    Err(e) => Err(NamespaceError::Engine(e)),
                }
            },
            None => {
                proof {
                    lemma_same_spaces(old(self)@, name@);
                }
                Err(NamespaceError::NotFound)
            },
        }
    }

    /// Deletes a record from namespace `name`, as [`Collection::delete`]
    /// does. No other namespace changes.
    pub fn delete(&mut self, name: &str, id: &str) -> (r: Result<usize, NamespaceError>)
        requires
            old(self).wf(),
        ensures
            final(self).wf(),
            final(self).spec_root() == old(self).spec_root(),
            others_same(old(self)@, final(self)@, name@),
            has_space(final(self)@, name@) == has_space(old(self)@, name@),
            !has_space(old(self)@, name@) ==> r == Err::<usize, NamespaceError>(
                NamespaceError::NotFound,
            ) && final(self)@ == old(self)@,
            has_space(old(self)@, name@) ==> {
                let s = space_state(old(self)@, name@);
                if is_live(s.slots, id@) {
                    r is Ok && space_state(final(self)@, name@) == deleted(s, id@)
                } else {
                    r == Err::<usize, NamespaceError>(NamespaceError::Engine(EngineError::NotFound))
                        && final(self)@ == old(self)@
                }
            },
    {
        match self.find(name) {
            Some(i) => {
                let ghost w = choose|w: int| space_at(old(self)@, w, name@);
                assert(space_at(old(self)@, i as int, name@));
                assert(w == i);
                let mut space = self.spaces.remove(i);
                let r = space.collection.delete(id);
                let ghost after = space.collection@;
                self.spaces.insert(i, space);
                proof {
                    assert(self@ =~= old(self)@.update(i as int, (name@, after)));
                    lemma_update_spaces(old(self)@, i as int, name@, after);
                    assert forall|a: int| 0 <= a < self.spaces@.len() implies (
                    #[trigger] self.spaces@[a]).collection.wf() by {
                        if a != i {
                            assert(self.spaces@[a] == old(self).spaces@[a]);
                        }
                    }
                }
                match r {
                    Ok(idx) => Ok(idx),
                    Err(e) => Err(NamespaceError::Engine(e)),
                }
            },
            None => {
                proof {
                    lemma_same_spaces(old(self)@, name@);
                }
                Err(NamespaceError::NotFound)
            },
        }
    }

    /// Compacts namespace `name`, as [`Collection::optimize`] does. No
    /// other namespace changes.
    pub fn optimize(&mut self, name: &str) -> (r: Result<usize, NamespaceError>)
        requires
            old(self).wf(),
        ensures
            final(self).wf(),
            final(self).spec_root() == old(self).spec_root(),
            others_same(old(self)@, final(self)@, name@),
            r is Ok <==> has_space(old(self)@, name@),
            r is Err ==> r->Err_0 == NamespaceError::NotFound && final(self)@ == old(self)@,
            r is Ok ==> has_space(final(self)@, name@) && space_state(final(self)@, name@) == compacted(
                space_state(old(self)@, name@),
            ),
    {
        match self.find(name) {
            Some(i) => {
                let ghost w = choose|w: int| space_at(old(self)@, w, name@);
                assert(space_at(old(self)@, i as int, name@));
                assert(w == i);
                let mut space = self.spaces.remove(i);
                let dropped = space.collection.optimize();
                let ghost after = space.collection@;
                self.spaces.insert(i, space);
                proof {
                    assert(self@ =~= old(self)@.update(i as int, (name@, after)));
                    lemma_update_spaces(old(self)@, i as int, name@, after);
                    assert forall|a: int| 0 <= a < self.spaces@.len() implies (
                    #[trigger] self.spaces@[a]).collection.wf() by {
                        if a != i {
                            assert(self.spaces@[a] == old(self).spaces@[a]);
                        }
                    }
                }
                Ok(dropped)
            },
            None => {
                proof {
                    lemma_same_spaces(old(self)@, name@);
                }
                Err(NamespaceError::NotFound)
            },
        }
    }
}

/// Nothing changed: every namespace is what it was.
pub proof fn lemma_same_spaces(m: Spaces, name: Seq<char>)
    ensures
        others_same(m, m, name),
{
}

/// Replacing the state of one namespace keeps the names where they are
/// and leaves every other namespace as it was.
pub proof fn lemma_update_spaces(m: Spaces, i: int, name: Seq<char>, s: State)
    requires
        space_at(m, i, name),
        forall|a: int, b: int, x: Seq<char>| space_at(m, a, x) && space_at(m, b, x) ==> a == b,
    ensures
        others_same(m, m.update(i, (name, s)), name),
        has_space(m.update(i, (name, s)), name),
        space_state(m.update(i, (name, s)), name) == s,
        forall|a: int, b: int, x: Seq<char>|
            space_at(m.update(i, (name, s)), a, x) && space_at(m.update(i, (name, s)), b, x) ==> a == b,
        forall|a: int|
            0 <= a < m.len() ==> (#[trigger] m.update(i, (name, s))[a]).0 == m[a].0,
{
    let n = m.update(i, (name, s));
    assert forall|a: int, x: Seq<char>| space_at(n, a, x) == space_at(m, a, x) by {}
    assert forall|a: int, b: int, x: Seq<char>| space_at(n, a, x) && space_at(n, b, x) implies a
        == b by {
        assert(space_at(m, a, x) && space_at(m, b, x));
    }
    assert(space_at(n, i, name));
    let w = choose|w: int| space_at(n, w, name);
    assert(w == i);
    assert forall|other: Seq<char>| other != name implies (#[trigger] has_space(n, other) == has_space(
        m,
        other,
    )) && (has_space(m, other) ==> space_state(n, other) == space_state(m, other)) by {
        if has_space(m, other) {
            let a = choose|a: int| space_at(m, a, other);
            assert(space_at(n, a, other));
            let b = choose|b: int| space_at(n, b, other);
            assert(space_at(m, b, other));
            assert(a == b);
        }
        if has_space(n, other) {
            let b = choose|b: int| space_at(n, b, other);
            assert(space_at(m, b, other));
        }
    }
}

/// Removing one namespace leaves every other namespace as it was.
pub proof fn lemma_remove_spaces(m: Spaces, i: int, name: Seq<char>)
    requires
        space_at(m, i, name),
        forall|a: int, b: int, x: Seq<char>| space_at(m, a, x) && space_at(m, b, x) ==> a == b,
    ensures
        others_same(m, m.remove(i), name),
        !has_space(m.remove(i), name),
{
    let n = m.remove(i);
    assert forall|a: int| !space_at(n, a, name) by {
        if space_at(n, a, name) {
            let a0 = if a < i { a } else { a + 1 };
            assert(space_at(m, a0, name));
        }
    }
    assert forall|other: Seq<char>| other != name implies (#[trigger] has_space(n, other) == has_space(
        m,
        other,
    )) && (has_space(m, other) ==> space_state(n, other) == space_state(m, other)) by {
        if has_space(m, other) {
            let a = choose|a: int| space_at(m, a, other);
            let a1 = if a < i { a } else { a - 1 };
            assert(space_at(n, a1, other));
            let b = choose|b: int| space_at(n, b, other);
            let b0 = if b < i { b } else { b + 1 };
            assert(space_at(m, b0, other));
            assert(a == b0);
        }
        if has_space(n, other) {
            let b = choose|b: int| space_at(n, b, other);
            let b0 = if b < i { b } else { b + 1 };
            assert(space_at(m, b0, other));
        }
    }
}

} // verus!
