//! Chained scopes: a mapping from names to values with an optional link to
//! one enclosing scope.

use vstd::prelude::*;
use vstd::std_specs::cmp::PartialEqSpecImpl;

use crate::object::{clone_object, object_eq, Object, ObjectModel};

verus! {

/// The mathematical value of an environment: the bindings of the local
/// scope and the enclosing scope, if there is one.
pub struct EnvModel {
    pub store: Map<Seq<char>, ObjectModel>,
    pub outer: Option<Box<EnvModel>>,
}

impl EnvModel {
    /// The environment with no binding and no enclosing scope.
    pub open spec fn empty() -> EnvModel {
        EnvModel { store: Map::empty(), outer: None }
    }

    /// A fresh scope inside `outer`.
    pub open spec fn child_of(outer: EnvModel) -> EnvModel {
        EnvModel { store: Map::empty(), outer: Some(Box::new(outer)) }
    }

    /// Resolution of a name: the local scope first, then the enclosing
    /// scopes from the inside out.
    pub open spec fn lookup(self, name: Seq<char>) -> Option<ObjectModel>
        decreases self,
    {
        if self.store.contains_key(name) {
            Some(self.store[name])
        } else {
            match self.outer {
                Some(outer) => outer.lookup(name),
                None => None,
            }
        }
    }

    /// The environment after binding `name` in the local scope. Enclosing
    /// scopes are never written.
    pub open spec fn bind(self, name: Seq<char>, value: ObjectModel) -> EnvModel {
        EnvModel { store: self.store.insert(name, value), outer: self.outer }
    }

    /// What the local scope holds for `name`.
    pub open spec fn local(self, name: Seq<char>) -> Option<ObjectModel> {
        if self.store.contains_key(name) {
            Some(self.store[name])
        } else {
            None
        }
    }
}

/// One name bound to one value.
#[derive(Debug)]
pub struct Binding {
    pub name: String,
    pub value: Object,
}

/// A scope. Bindings are kept in the order in which their names were first
/// bound; a later binding of a name takes the place of the earlier one, so
/// that no name occurs twice.
#[derive(Debug)]
pub struct Environment {
    store: Vec<Binding>,
    outer: Option<Box<Environment>>,
}

/// Whether no name occurs twice in a list of bindings.
pub open spec fn distinct_names(bindings: Seq<Binding>) -> bool {
    forall|i: int, j: int|
        0 <= i < j < bindings.len() ==> #[trigger] bindings[i].name@ != #[trigger] bindings[j].name@
}

/// A binding as a pair of plain values.
pub type Entry = (Seq<char>, ObjectModel);

/// The bindings of a list as pairs of plain values, in order.
pub open spec fn entries_of(bindings: Seq<Binding>) -> Seq<Entry> {
    Seq::new(bindings.len(), |i: int| (bindings[i].name@, bindings[i].value.model()))
}

/// The mapping that the first `n` entries of a list stand for: of two
/// entries for one name the later one counts.
pub open spec fn store_of(entries: Seq<Entry>, n: nat) -> Map<Seq<char>, ObjectModel>
    decreases n,
{
    if n == 0 || n > entries.len() {
        Map::empty()
    } else {
        store_of(entries, (n - 1) as nat).insert(entries[n - 1].0, entries[n - 1].1)
    }
}

/// The index of the last of the first `n` entries that is for `name`.
pub open spec fn last_index(entries: Seq<Entry>, n: nat, name: Seq<char>) -> Option<int>
    decreases n,
{
    if n == 0 || n > entries.len() {
        None
    } else if entries[n - 1].0 == name {
        Some(n - 1)
    } else {
        last_index(entries, (n - 1) as nat, name)
    }
}

/// The mapping that a list of bindings stands for.
pub open spec fn store_model(bindings: Seq<Binding>) -> Map<Seq<char>, ObjectModel> {
    store_of(entries_of(bindings), bindings.len())
}

/// What the last entry for a name says of the mapping: the name is bound
/// to the value of that entry, and of a name without an entry nothing is
/// bound.
proof fn lemma_last_index(entries: Seq<Entry>, n: nat, name: Seq<char>)
    requires
        n <= entries.len(),
    ensures
        match last_index(entries, n, name) {
            Some(i) => {
                &&& 0 <= i < n
                &&& entries[i].0 == name
                &&& forall|j: int| i < j < n ==> entries[j].0 != name
                &&& store_of(entries, n).contains_key(name)
                &&& store_of(entries, n)[name] == entries[i].1
            },
            None => {
                &&& forall|j: int| 0 <= j < n ==> entries[j].0 != name
                &&& !store_of(entries, n).contains_key(name)
            },
        },
    decreases n,
{
    if n > 0 {
        lemma_last_index(entries, (n - 1) as nat, name);
    }
}

/// Lists that agree on their first `n` entries stand for the same mapping
/// there.
proof fn lemma_store_prefix(a: Seq<Entry>, b: Seq<Entry>, n: nat)
    requires
        n <= a.len(),
        n <= b.len(),
        forall|j: int| 0 <= j < n ==> a[j] == b[j],
    ensures
        store_of(a, n) == store_of(b, n),
    decreases n,
{
    if n > 0 {
        lemma_store_prefix(a, b, (n - 1) as nat);
    }
}

/// Putting another value in the last entry for a name binds the name to
/// that value and changes nothing else.
proof fn lemma_store_update(a: Seq<Entry>, b: Seq<Entry>, i: int, n: nat)
    requires
        0 <= i < n <= a.len(),
        a.len() == b.len(),
        a[i].0 == b[i].0,
        forall|j: int| i < j < n ==> a[j].0 != a[i].0,
        forall|j: int| 0 <= j < n && j != i ==> a[j] == b[j],
    ensures
        store_of(b, n) == store_of(a, n).insert(b[i].0, b[i].1),
    decreases n,
{
    if n == i + 1 {
        lemma_store_prefix(a, b, i as nat);
        assert(store_of(b, n) =~= store_of(a, n).insert(b[i].0, b[i].1));
    } else {
        lemma_store_update(a, b, i, (n - 1) as nat);
        assert(store_of(b, n) =~= store_of(a, n).insert(b[i].0, b[i].1));
    }
}

/// The index of the last binding of a name.
fn find(bindings: &Vec<Binding>, name: &String) -> (res: Option<usize>)
    ensures
        match res {
            Some(i) => last_index(entries_of(bindings@), bindings@.len(), name@) == Some(i as int),
            None => last_index(entries_of(bindings@), bindings@.len(), name@) is None,
        },
{
    let ghost entries = entries_of(bindings@);
    let mut i: usize = bindings.len();
    while i > 0
        invariant
            i <= bindings.len(),
            entries == entries_of(bindings@),
            last_index(entries, bindings@.len(), name@) == last_index(entries, i as nat, name@),
        decreases i,
    {
        if bindings[i - 1].name == *name {
            return Some(i - 1);
        }
        i -= 1;
    }
    None
}

/// Copies a list of bindings.
fn clone_bindings(bindings: &Vec<Binding>) -> (res: Vec<Binding>)
    ensures
        entries_of(res@) == entries_of(bindings@),
        distinct_names(bindings@) ==> distinct_names(res@),
    decreases bindings,
{
    let mut out: Vec<Binding> = Vec::new();
    let mut i: usize = 0;
    while i < bindings.len()
        invariant
            i <= bindings.len(),
            out@.len() == i,
            forall|j: int|
                0 <= j < i ==> out@[j].name@ == bindings@[j].name@ && out@[j].value.model()
                    == bindings@[j].value.model(),
        decreases bindings.len() - i,
    {
        out.push(Binding { name: bindings[i].name.clone(), value: clone_object(&bindings[i].value) });
        i += 1;
    }
    assert(entries_of(out@) =~= entries_of(bindings@));
    assert(out@.len() == bindings@.len());
    out
}

/// Copies an environment with everything it holds.
pub(crate) fn clone_environment(env: &Environment) -> (res: Environment)
    ensures
        res.model() == env.model(),
    decreases env,
{
    proof {
        use_type_invariant(env);
    }
    let res = Environment {
        store: clone_bindings(&env.store),
        outer: match &env.outer {
            Some(outer) => Some(Box::new(clone_environment(&**outer))),
            None => None,
        },
    };
    proof {
        res.lemma_model();
        env.lemma_model();
    }
    res
}

/// Whether two lists of bindings stand for the same mapping.
fn stores_eq(a: &Vec<Binding>, b: &Vec<Binding>) -> (res: bool)
    ensures
        res == (store_model(a@) == store_model(b@)),
    decreases a,
{
    let ghost ea = entries_of(a@);
    let ghost eb = entries_of(b@);
    let ghost ma = store_model(a@);
    let ghost mb = store_model(b@);
    let mut i: usize = 0;
    while i < a.len()
        invariant
            i <= a.len(),
            ea == entries_of(a@),
            eb == entries_of(b@),
            ma == store_model(a@),
            mb == store_model(b@),
            forall|j: int|
                0 <= j < i ==> ma.contains_key(#[trigger] ea[j].0) && mb.contains_key(ea[j].0)
                    && mb[ea[j].0] == ma[ea[j].0],
        decreases a.len() - i,
    {
        proof {
            lemma_last_index(ea, ea.len(), ea[i as int].0);
            lemma_last_index(eb, eb.len(), ea[i as int].0);
        }
        let left = find(a, &a[i].name);
        let right = find(b, &a[i].name);
        match (left, right) {
            (Some(p), Some(q)) => {
                if !object_eq(&a[p].value, &b[q].value) {
                    assert(ma[ea[i as int].0] != mb[ea[i as int].0]);
                    return false;
                }
            },
            _ => {
                assert(ma.contains_key(ea[i as int].0));
                assert(!mb.contains_key(ea[i as int].0));
                return false;
            },
        }
        i += 1;
    }
    let mut i: usize = 0;
    while i < b.len()
        invariant
            i <= b.len(),
            ea == entries_of(a@),
            eb == entries_of(b@),
            ma == store_model(a@),
            mb == store_model(b@),
            forall|j: int|
                0 <= j < a.len() ==> ma.contains_key(#[trigger] ea[j].0) && mb.contains_key(
                    ea[j].0,
                ) && mb[ea[j].0] == ma[ea[j].0],
            forall|j: int| 0 <= j < i ==> ma.contains_key(#[trigger] eb[j].0),
        decreases b.len() - i,
    {
        proof {
            lemma_last_index(ea, ea.len(), eb[i as int].0);
            lemma_last_index(eb, eb.len(), eb[i as int].0);
        }
        if find(a, &b[i].name).is_none() {
            assert(mb.contains_key(eb[i as int].0));
            assert(!ma.contains_key(eb[i as int].0));
            return false;
        }
        i += 1;
    }
    proof {
        assert forall|k: Seq<char>| #[trigger] ma.dom().contains(k) implies mb.dom().contains(k)
            && ma[k] == mb[k] by {
            lemma_last_index(ea, ea.len(), k);
            let j = last_index(ea, ea.len(), k).unwrap();
            assert(ea[j].0 == k);
        }
        assert forall|k: Seq<char>| #[trigger] mb.dom().contains(k) implies ma.dom().contains(
            k,
        ) by {
            lemma_last_index(eb, eb.len(), k);
            let j = last_index(eb, eb.len(), k).unwrap();
            assert(eb[j].0 == k);
        }
        assert(ma.dom() =~= mb.dom());
        assert(ma =~= mb);
    }
    true
}

/// Whether two environments hold the same bindings in each of their
/// scopes.
pub(crate) fn environment_eq(a: &Environment, b: &Environment) -> (res: bool)
    ensures
        res == (a.model() == b.model()),
    decreases a,
{
    proof {
        a.lemma_model();
        b.lemma_model();
    }
    let stores = stores_eq(&a.store, &b.store);
    let outers = match (&a.outer, &b.outer) {
        (Some(x), Some(y)) => environment_eq(&**x, &**y),
        (None, None) => true,
        _ => false,
    };
    stores && outers
}

impl Environment {
    /// No name occurs twice in a scope.
    #[verifier::type_invariant]
    spec fn well_formed(&self) -> bool {
        distinct_names(self.store@)
    }

    /// The bindings of the local scope as pairs of plain values.
    spec fn entries(&self) -> Seq<Entry>
        decreases self, 0nat,
    {
        Seq::new(
            self.store@.len(),
            |i: int|
                if 0 <= i < self.store@.len() {
                    (self.store@[i].name@, self.store@[i].value.model())
                } else {
                    arbitrary()
                },
        )
    }

    /// The mathematical value of the environment.
    pub closed spec fn model(&self) -> EnvModel
        decreases self, 1nat,
    {
        EnvModel {
            store: store_of(self.entries(), self.store@.len()),
            outer: match self.outer {
                Some(outer) => Some(Box::new(outer.model())),
                None => None,
            },
        }
    }

    /// The parts of the mathematical value.
    proof fn lemma_model(&self)
        ensures
            self.model().store == store_model(self.store@),
            self.model().outer == match self.outer {
                Some(outer) => Some(Box::new(outer.model())),
                None => None,
            },
    {
        assert(self.entries() =~= entries_of(self.store@));
    }

    /// An environment with no binding and no enclosing scope.
    pub fn new() -> (res: Self)
        ensures
            res@ == EnvModel::empty(),
    {
        let res = Environment { store: Vec::new(), outer: None };
        proof {
            res.lemma_model();
        }
        res
    }

    /// A fresh scope whose enclosing scope is a copy of `env`.
    pub fn new_with_outer(env: &Environment) -> (res: Self)
        ensures
            res@ == EnvModel::child_of(env@),
    {
        let res = Environment { store: Vec::new(), outer: Some(Box::new(clone_environment(env))) };
        proof {
            res.lemma_model();
        }
        res
    }

    /// Resolves a name: in the local scope first, then in the enclosing
    /// scopes from the inside out.
    pub fn get(&self, k: &str) -> (res: Option<&Object>)
        ensures
            match res {
                Some(object) => self@.lookup(k@) == Some(object@),
                None => self@.lookup(k@) is None,
            },
        decreases self,
    {
        let key = String::from_str(k);
        proof {
            self.lemma_model();
            lemma_last_index(entries_of(self.store@), self.store@.len(), k@);
        }
        match find(&self.store, &key) {
            Some(i) => Some(&self.store[i].value),
            None => match &self.outer {
                Some(outer) => outer.get(k),
                None => None,
            },
        }
    }

    /// Binds a name in the local scope and returns the value that the local
    /// scope held for it before, if any.
    pub fn set(&mut self, k: String, v: Object) -> (res: Option<Object>)
        ensures
            final(self)@ == old(self)@.bind(k@, v@),
            match res {
                Some(object) => old(self)@.local(k@) == Some(object@),
                None => old(self)@.local(k@) is None,
            },
    {
        let ghost before = entries_of(self.store@);
        proof {
            use_type_invariant(&*self);
            self.lemma_model();
            lemma_last_index(before, before.len(), k@);
        }
        let mut store: Vec<Binding> = Vec::new();
        core::mem::swap(&mut self.store, &mut store);
        let ghost bindings = store@;
        let found = find(&store, &k);
        let res = match found {
            Some(i) => {
                let mut value = v;
                core::mem::swap(&mut store[i].value, &mut value);
                proof {
                    lemma_store_update(before, entries_of(store@), i as int, before.len());
                    assert forall|j: int| 0 <= j < store@.len() implies #[trigger] store@[j].name@
                        == bindings[j].name@ by {
                        assert(entries_of(store@)[j].0 == before[j].0);
                    }
                }
                Some(value)
            },
            None => {
                store.push(Binding { name: k, value: v });
                proof {
                    lemma_store_prefix(before, entries_of(store@), before.len());
                    assert forall|j: int| 0 <= j < bindings.len() implies #[trigger] store@[j].name@
                        == bindings[j].name@ && bindings[j].name@ != k@ by {
                        assert(before[j].0 == bindings[j].name@);
                    }
                }
                None
            },
        };
        assert(distinct_names(store@));
        core::mem::swap(&mut self.store, &mut store);
        proof {
            self.lemma_model();
        }
        res
    }
}

impl View for Environment {
    type V = EnvModel;

    open spec fn view(&self) -> EnvModel {
        self.model()
    }
}

impl Default for Environment {
    fn default() -> (res: Self)
        ensures
            res@ == EnvModel::empty(),
    {
        Environment::new()
    }
}

impl Clone for Environment {
    fn clone(&self) -> (res: Self)
        ensures
            res@ == self@,
    {
        clone_environment(self)
    }
}

impl PartialEq for Environment {
    fn eq(&self, other: &Self) -> (res: bool) {
        environment_eq(self, other)
    }
}

impl Eq for Environment {}

impl PartialEqSpecImpl for Environment {
    open spec fn obeys_eq_spec() -> bool {
        true
    }

    open spec fn eq_spec(&self, other: &Self) -> bool {
        self@ == other@
    }
}

} // verus!
