//! The object registry: a name-indexed table of live objects that routes
//! each decoded line.
//!
//! A line's keyword is looked up first; a hit delegates the tokens to
//! that object's feed.  A miss tries factory creation: only the keyword
//! `SCOPE` has a factory, and the new object is registered under the name
//! it reports — never under the literal keyword — replacing any previous
//! object of that name whole.  Anything else is dropped; routing never
//! fails.
use crate::line::{spec_debug_line, DebugLine};
use crate::scope::{spec_scope_feed, spec_scope_new, wf_scope, Scope, ScopeV};
use crate::strutil::str_eq;
use vstd::prelude::*;

verus! {

/// The mathematical content of a [`DebugObject`].
pub enum DebugObjectV {
    Scope(ScopeV),
}

/// A live object: a sum type with one case today, dispatched by
/// exhaustive matching so that future kinds have room.
pub enum DebugObject {
    Scope(Scope),
}

impl View for DebugObject {
    type V = DebugObjectV;

    open spec fn view(&self) -> DebugObjectV {
        match self {
            DebugObject::Scope(s) => DebugObjectV::Scope(s@),
        }
    }
}

pub open spec fn wf_object(o: DebugObjectV) -> bool {
    match o {
        DebugObjectV::Scope(s) => wf_scope(s),
    }
}

/// The name an object reports, its registry key.
pub open spec fn spec_object_name(o: DebugObjectV) -> Seq<char> {
    match o {
        DebugObjectV::Scope(s) => s.name,
    }
}

/// Feeding an object delegates to its kind.
pub open spec fn spec_object_feed(o: DebugObjectV, toks: Seq<Seq<char>>) -> DebugObjectV {
    match o {
        DebugObjectV::Scope(s) => DebugObjectV::Scope(spec_scope_feed(s, toks)),
    }
}

impl DebugObject {
    /// The object's reported name.
    pub fn name(&self) -> (r: String)
        ensures
            r@ == spec_object_name(self@),
    {
        match self {
            DebugObject::Scope(s) => s.name(),
        }
    }

    /// Delegates a token list to the object's feed.
    pub fn feed(&mut self, tokens: Vec<String>)
        requires
            wf_object(old(self)@),
        ensures
            final(self)@ == spec_object_feed(old(self)@, tokens@.map_values(|t: String| t@)),
            wf_object(final(self)@),
    {
        match self {
            DebugObject::Scope(s) => {
                s.feed(tokens);
            },
        }
    }
}

/// Index of the first object with the given name, or the length.
pub open spec fn find_object(rs: Seq<DebugObjectV>, key: Seq<char>) -> int
    decreases rs.len(),
{
    if rs.len() == 0 {
        0
    } else if spec_object_name(rs[0]) == key {
        0
    } else {
        1 + find_object(rs.skip(1), key)
    }
}

pub(crate) proof fn lemma_find_object_at(rs: Seq<DebugObjectV>, key: Seq<char>, k: int)
    requires
        0 <= k <= rs.len(),
        forall|j: int| 0 <= j < k ==> spec_object_name(#[trigger] rs[j]) != key,
        k < rs.len() ==> spec_object_name(rs[k as int]) == key,
    ensures
        find_object(rs, key) == k,
    decreases k,
{
    if rs.len() == 0 {
    } else if spec_object_name(rs[0]) == key {
        assert(k == 0);
    } else {
        assert(k >= 1);
        lemma_find_object_at(rs.skip(1), key, k - 1);
    }
}

pub(crate) proof fn lemma_find_object_le(rs: Seq<DebugObjectV>, key: Seq<char>)
    ensures
        0 <= find_object(rs, key) <= rs.len(),
        find_object(rs, key) < rs.len() ==> spec_object_name(rs[find_object(rs, key)]) == key,
        forall|j: int|
            0 <= j < find_object(rs, key) ==> spec_object_name(#[trigger] rs[j]) != key,
    decreases rs.len(),
{
    if rs.len() > 0 && spec_object_name(rs[0]) != key {
        lemma_find_object_le(rs.skip(1), key);
        assert forall|j: int|
            0 <= j < find_object(rs, key) implies spec_object_name(#[trigger] rs[j]) != key by {
            if j > 0 {
                assert(rs[j] == rs.skip(1)[j - 1]);
            }
        }
    }
}

/// Registering an object under its reported name: it replaces the object
/// of that name whole, or joins at the back when the name is new.
pub open spec fn spec_register(rs: Seq<DebugObjectV>, o: DebugObjectV) -> Seq<DebugObjectV> {
    let j = find_object(rs, spec_object_name(o));
    if j < rs.len() {
        rs.update(j, o)
    } else {
        rs.push(o)
    }
}

/// What routing one raw line does to the registry, as the module header
/// describes; an undecodable line changes nothing.
pub open spec fn spec_registry_feed(rs: Seq<DebugObjectV>, line: Seq<char>) -> Seq<DebugObjectV> {
    match spec_debug_line(line) {
        None => rs,
        Some(dl) => {
            let k = find_object(rs, dl.keyword);
            if k < rs.len() {
                rs.update(k, spec_object_feed(rs[k], dl.tokens))
            } else if dl.tokens.len() >= 1 && dl.keyword == "SCOPE"@ {
                match spec_scope_new(dl.tokens) {
                    Ok(sc) => spec_register(rs, DebugObjectV::Scope(sc)),
                    Err(_) => rs,
                }
            } else {
                rs
            }
        },
    }
}

/// Every object well formed, every key the object's own reported name,
/// and no name twice.
pub open spec fn wf_registry(rs: Seq<DebugObjectV>) -> bool {
    &&& forall|i: int| 0 <= i < rs.len() ==> wf_object(#[trigger] rs[i])
    &&& forall|i: int, j: int|
        0 <= i < j < rs.len() ==> spec_object_name(rs[i]) != spec_object_name(rs[j])
}

/// The registry: the live objects, each keyed by its reported name.
pub struct DebugObjects {
    objects: Vec<DebugObject>,
}

impl View for DebugObjects {
    type V = Seq<DebugObjectV>;

    closed spec fn view(&self) -> Seq<DebugObjectV> {
        self.objects@.map_values(|o: DebugObject| o@)
    }
}

impl DebugObjects {
    /// An empty registry.
    pub fn new() -> (r: DebugObjects)
        ensures
            r@ == Seq::<DebugObjectV>::empty(),
            wf_registry(r@),
    {
        let r = DebugObjects { objects: Vec::new() };
        proof {
            assert(r@ =~= Seq::<DebugObjectV>::empty());
        }
        r
    }

    /// The index of the object with this name, or the object count.
    #[verifier::loop_isolation(false)]
    fn find_index(&self, key: &str) -> (idx: usize)
        ensures
            idx == find_object(self@, key@),
    {
        let n = self.objects.len();
        let mut i: usize = 0;
        while i < n
            invariant
                i <= n,
                n == self@.len(),
                forall|j: int| 0 <= j < i ==> spec_object_name(#[trigger] self@[j]) != key@,
            decreases n - i,
        {
            let name = self.objects[i].name();
            proof {
                assert(self@[i as int] == self.objects@[i as int]@);
            }
            if str_eq(name.as_str(), key) {
                proof {
                    lemma_find_object_at(self@, key@, i as int);
                }
                return i;
            }
            i += 1;
        }
        proof {
            lemma_find_object_at(self@, key@, n as int);
        }
        n
    }

    /// Registers an object under its reported name, exactly as
    /// [`spec_register`] says.
    fn register(&mut self, obj: DebugObject)
        requires
            wf_registry(old(self)@),
            wf_object(obj@),
        ensures
            final(self)@ == spec_register(old(self)@, obj@),
            wf_registry(final(self)@),
    {
        let name = obj.name();
        let j = self.find_index(name.as_str());
        proof {
            lemma_find_object_le(old(self)@, spec_object_name(obj@));
        }
        if j < self.objects.len() {
            let ghost before = self@;
            let _replaced = self.objects.remove(j);
            self.objects.insert(j, obj);
            proof {
                assert(self@ =~= before.update(j as int, obj@));
            }
        } else {
            let ghost before = self@;
            self.objects.push(obj);
            proof {
                assert(self@ =~= before.push(obj@));
            }
        }
    }

    /// Routes one raw line, exactly as [`spec_registry_feed`] says:
    /// delegate to the named object, else create a scope on a `SCOPE`
    /// keyword, else drop the line.  Routing never fails.
    pub fn feed(&mut self, line: &str)
        requires
            wf_registry(old(self)@),
        ensures
            final(self)@ == spec_registry_feed(old(self)@, line@),
            wf_registry(final(self)@),
    {
        match DebugLine::from_str(line) {
            Ok(dl) => {
                let idx = self.find_index(dl.keyword.as_str());
                proof {
                    lemma_find_object_le(old(self)@, dl@.keyword);
                }
                if idx < self.objects.len() {
                    let ghost before = self@;
                    let mut obj = self.objects.remove(idx);
                    proof {
                        assert(obj@ == before[idx as int]);
                    }
                    obj.feed(dl.tokens);
                    self.objects.insert(idx, obj);
                    proof {
                        assert(self@ =~= before.update(
                            idx as int,
                            spec_object_feed(before[idx as int], spec_debug_line(line@)->0.tokens),
                        ));
                    }
                } else {
                    if dl.tokens.len() >= 1 && str_eq(dl.keyword.as_str(), "SCOPE") {
                        match Scope::new(&dl.tokens) {
                            Ok(scope) => {
                                self.register(DebugObject::Scope(scope));
                            },
                            Err(_) => {},
                        }
                    }
                }
            },
            Err(_) => {},
        }
    }

    /// The object registered under a name, if any.
    pub fn get(&self, key: &str) -> (r: Option<&DebugObject>)
        ensures
            r is Some <==> find_object(self@, key@) < self@.len(),
            r matches Some(o) ==> o@ == self@[find_object(self@, key@)],
    {
        let idx = self.find_index(key);
        if idx < self.objects.len() {
            proof {
                assert(self@[idx as int] == self.objects@[idx as int]@);
            }
            Some(&self.objects[idx])
        } else {
            None
        }
    }

    /// The object at an index, for enumeration.
    pub fn object_at(&self, i: usize) -> (r: &DebugObject)
        requires
            i < self@.len(),
        ensures
            r@ == self@[i as int],
    {
        proof {
            assert(self@[i as int] == self.objects@[i as int]@);
        }
        &self.objects[i]
    }

    /// How many objects are live.
    pub fn len(&self) -> (n: usize)
        ensures
            n == self@.len(),
    {
        self.objects.len()
    }
}

} // verus!