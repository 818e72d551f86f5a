//! Symbol storage: function and method signatures keyed by scope and name,
//! with a lookup of the types that define each method name.
use vstd::prelude::*;
use dashmap::DashMap;
use crate::callgraph::{contains_str, str_views};

verus! {

broadcast use vstd::set::group_set_axioms;

/// The signature of a function or method.
#[derive(Debug, Clone)]
pub struct FunctionSignature {
    pub name: String,
    pub is_public: bool,
    /// `"&self"` or `"self"` for methods with a receiver, `None` otherwise.
    pub receiver: Option<String>,
    /// Where it is defined, as `file:line`.
    pub location: String,
    /// The crate (owning scope) that defines it.
    pub crate_name: String,
}

/// What a signature holds, as plain values.
pub struct SignatureView {
    pub name: Seq<char>,
    pub is_public: bool,
    pub receiver: Option<Seq<char>>,
    pub location: Seq<char>,
    pub crate_name: Seq<char>,
}

impl View for FunctionSignature {
    type V = SignatureView;

    open spec fn view(&self) -> SignatureView {
        SignatureView {
            name: self.name@,
            is_public: self.is_public,
            receiver: match self.receiver {
                Some(r) => Some(r@),
                None => None,
            },
            location: self.location@,
            crate_name: self.crate_name@,
        }
    }
}

/// The signatures of a list, as plain values.
pub open spec fn signature_views(v: Seq<FunctionSignature>) -> Seq<SignatureView> {
    v.map_values(|s: FunctionSignature| s@)
}

/// The type names registered for `method`, in order of registration.
pub open spec fn registered_types(
    lookup: Map<Seq<char>, Seq<Seq<char>>>,
    method: Seq<char>,
) -> Seq<Seq<char>> {
    if lookup.contains_key(method) {
        lookup[method]
    } else {
        Seq::empty()
    }
}

/// The signatures stored for `method` on each of `types`, in that order,
/// skipping the types that have no such method stored.
pub open spec fn methods_of_types(
    methods: Map<(Seq<char>, Seq<char>), SignatureView>,
    types: Seq<Seq<char>>,
    method: Seq<char>,
) -> Seq<SignatureView>
    decreases types.len(),
{
    if types.len() == 0 {
        Seq::empty()
    } else {
        let before = methods_of_types(methods, types.drop_last(), method);
        let key = (types.last(), method);
        if methods.contains_key(key) {
            before.push(methods[key])
        } else {
            before
        }
    }
}

/// The type list for `method` after registering `owner_type` for it: the
/// name is added at the end unless it is already there.
pub open spec fn with_registered(
    lookup: Map<Seq<char>, Seq<Seq<char>>>,
    method: Seq<char>,
    owner_type: Seq<char>,
) -> Map<Seq<char>, Seq<Seq<char>>> {
    let types = registered_types(lookup, method);
    if types.contains(owner_type) {
        lookup.insert(method, types)
    } else {
        lookup.insert(method, types.push(owner_type))
    }
}

/// A storage backend for signatures.
pub trait SymbolStore {
    fn insert_function(&mut self, key: String, sig: FunctionSignature);

    fn insert_method(&mut self, owner_type: String, method_name: String, sig: FunctionSignature);

    fn get_function(&self, key: &str) -> Option<FunctionSignature>;

    fn get_method(&self, owner_type: &str, method_name: &str) -> Option<FunctionSignature>;

    fn find_methods_by_name(&self, method_name: &str) -> Vec<FunctionSignature>;

    fn register_method_lookup(&mut self, method_name: String, owner_type: String);
}

#[verifier::external_type_specification]
#[verifier::external_body]
#[verifier::reject_recursive_types(K)]
#[verifier::reject_recursive_types(V)]
#[verifier::reject_recursive_types(S)]
pub struct ExDashMap<K, V, S>(DashMap<K, V, S>);

/// The entries of a function table.
pub uninterp spec fn function_entries(m: DashMap<String, FunctionSignature>) -> Map<
    Seq<char>,
    SignatureView,
>;

/// The entries of a method table, keyed by (type name, method name).
pub uninterp spec fn method_entries(m: DashMap<(String, String), FunctionSignature>) -> Map<
    (Seq<char>, Seq<char>),
    SignatureView,
>;

/// The entries of a method-name lookup: the type names for each method name.
pub uninterp spec fn lookup_entries(m: DashMap<String, Vec<String>>) -> Map<
    Seq<char>,
    Seq<Seq<char>>,
>;

/// Relies on `DashMap::new`: a new map is empty.
#[verifier::external_body]
fn new_function_table() -> (r: DashMap<String, FunctionSignature>)
    ensures
        forall|k: Seq<char>| !function_entries(r).contains_key(k),
{
    DashMap::new()
}

/// Relies on `DashMap::new`: a new map is empty.
#[verifier::external_body]
fn new_method_table() -> (r: DashMap<(String, String), FunctionSignature>)
    ensures
        forall|k: (Seq<char>, Seq<char>)| !method_entries(r).contains_key(k),
{
    DashMap::new()
}

/// Relies on `DashMap::new`: a new map is empty.
#[verifier::external_body]
fn new_lookup_table() -> (r: DashMap<String, Vec<String>>)
    ensures
        forall|k: Seq<char>| !lookup_entries(r).contains_key(k),
{
    DashMap::new()
}

/// Relies on `DashMap::insert`: the key now maps to the value, other keys
/// are unchanged.
#[verifier::external_body]
fn function_table_insert(m: &mut DashMap<String, FunctionSignature>, key: String, sig: FunctionSignature)
    ensures
        function_entries(*final(m)) == function_entries(*old(m)).insert(key@, sig@),
{
    m.insert(key, sig);
}

/// Relies on `DashMap::insert`: the key now maps to the value, other keys
/// are unchanged.
#[verifier::external_body]
fn method_table_insert(
    m: &mut DashMap<(String, String), FunctionSignature>,
    key: (String, String),
    sig: FunctionSignature,
)
    ensures
        method_entries(*final(m)) == method_entries(*old(m)).insert((key.0@, key.1@), sig@),
{
    m.insert(key, sig);
}

/// Relies on `DashMap::insert`: the key now maps to the value, other keys
/// are unchanged.
#[verifier::external_body]
fn lookup_table_insert(m: &mut DashMap<String, Vec<String>>, key: String, types: Vec<String>)
    ensures
        lookup_entries(*final(m)) == lookup_entries(*old(m)).insert(
            key@,
            types@.map_values(|t: String| t@),
        ),
{
    m.insert(key, types);
}

/// Relies on `DashMap::get`: the value stored under the key, if any.
#[verifier::external_body]
fn function_table_get(m: &DashMap<String, FunctionSignature>, key: &str) -> (r: Option<
    FunctionSignature,
>)
    ensures
        r is Some <==> function_entries(*m).contains_key(key@),
        r matches Some(s) ==> s@ == function_entries(*m)[key@],
{
    m.get(key).map(|e| e.clone())
}

/// Relies on `DashMap::get`: the value stored under the key, if any.
#[verifier::external_body]
fn method_table_get(m: &DashMap<(String, String), FunctionSignature>, key: &(String, String)) -> (r:
    Option<FunctionSignature>)
    ensures
        r is Some <==> method_entries(*m).contains_key((key.0@, key.1@)),
        r matches Some(s) ==> s@ == method_entries(*m)[(key.0@, key.1@)],
{
    m.get(key).map(|e| e.clone())
}

/// Relies on `DashMap::get`: the value stored under the key, if any.
#[verifier::external_body]
fn lookup_table_get(m: &DashMap<String, Vec<String>>, key: &str) -> (r: Option<Vec<String>>)
    ensures
        r is Some <==> lookup_entries(*m).contains_key(key@),
        r matches Some(v) ==> v@.map_values(|t: String| t@) == lookup_entries(*m)[key@],
{
    m.get(key).map(|e| e.clone())
}

/// The key under which a disk-backed store keeps the method `method_name`
/// of `owner_type`: `owner_type::method_name`.
pub fn method_key(owner_type: &str, method_name: &str) -> (r: String)
    ensures
        r@ == owner_type@ + "::"@ + method_name@,
{
    let mut key = String::from_str(owner_type);
    key.append("::");
    key.append(method_name);
    key
}

/// Adds `owner_type` at the end of the registered type names `types` unless
/// it is already there; says whether it was added.
pub fn register_type(types: &mut Vec<String>, owner_type: String) -> (added: bool)
    ensures
        added == !str_views(old(types)@).contains(owner_type@),
        str_views(final(types)@) == if added {
            str_views(old(types)@).push(owner_type@)
        } else {
            str_views(old(types)@)
        },
{
    if contains_str(types, &owner_type) {
        false
    } else {
        let ghost before = str_views(types@);
        types.push(owner_type);
        assert(str_views(types@) =~= before.push(owner_type@));
        true
    }
}

/// A signature store held in memory, for the life of the process.
pub struct MemorySymbolStore {
    global_functions: DashMap<String, FunctionSignature>,
    type_methods: DashMap<(String, String), FunctionSignature>,
    method_lookup: DashMap<String, Vec<String>>,
}

impl MemorySymbolStore {
    /// The stored functions, by key.
    pub closed spec fn functions(&self) -> Map<Seq<char>, SignatureView> {
        function_entries(self.global_functions)
    }

    /// The stored methods, by (type name, method name).
    pub closed spec fn methods(&self) -> Map<(Seq<char>, Seq<char>), SignatureView> {
        method_entries(self.type_methods)
    }

    /// The registered type names of each method name.
    pub closed spec fn method_types(&self) -> Map<Seq<char>, Seq<Seq<char>>> {
        lookup_entries(self.method_lookup)
    }

    /// An empty store.
    pub fn new() -> (r: MemorySymbolStore)
        ensures
            forall|k: Seq<char>| !r.functions().contains_key(k),
            forall|k: (Seq<char>, Seq<char>)| !r.methods().contains_key(k),
            forall|k: Seq<char>| !r.method_types().contains_key(k),
    {
        MemorySymbolStore {
            global_functions: new_function_table(),
            type_methods: new_method_table(),
            method_lookup: new_lookup_table(),
        }
    }

    /// Stores `sig` as the function `key`, replacing any earlier one.
    pub fn insert_function(&mut self, key: String, sig: FunctionSignature)
        ensures
            final(self).functions() == old(self).functions().insert(key@, sig@),
            final(self).methods() == old(self).methods(),
            final(self).method_types() == old(self).method_types(),
    {
        function_table_insert(&mut self.global_functions, key, sig);
    }

    /// Stores `sig` as the method `method_name` of `owner_type`, replacing any
    /// earlier one.
    pub fn insert_method(&mut self, owner_type: String, method_name: String, sig: FunctionSignature)
        ensures
            final(self).methods() == old(self).methods().insert((owner_type@, method_name@), sig@),
            final(self).functions() == old(self).functions(),
            final(self).method_types() == old(self).method_types(),
    {
        method_table_insert(&mut self.type_methods, (owner_type, method_name), sig);
    }

    /// The function stored as `key`, if any.
    pub fn get_function(&self, key: &str) -> (r: Option<FunctionSignature>)
        ensures
            r is Some <==> self.functions().contains_key(key@),
            r matches Some(s) ==> s@ == self.functions()[key@],
    {
        function_table_get(&self.global_functions, key)
    }

    /// The method `method_name` stored for `owner_type`, if any.
    pub fn get_method(&self, owner_type: &str, method_name: &str) -> (r: Option<FunctionSignature>)
        ensures
            r is Some <==> self.methods().contains_key((owner_type@, method_name@)),
            r matches Some(s) ==> s@ == self.methods()[(owner_type@, method_name@)],
    {
        let key = (String::from_str(owner_type), String::from_str(method_name));
        method_table_get(&self.type_methods, &key)
    }

    /// Every stored method named `method_name`, over the types registered for
    /// that name, in order of registration.
    pub fn find_methods_by_name(&self, method_name: &str) -> (r: Vec<FunctionSignature>)
        ensures
            signature_views(r@) == methods_of_types(
                self.methods(),
                registered_types(self.method_types(), method_name@),
                method_name@,
            ),
    {
        let mut out: Vec<FunctionSignature> = Vec::new();
        match lookup_table_get(&self.method_lookup, method_name) {
            None => {
                assert(signature_views(out@) =~= Seq::<SignatureView>::empty());
            },
            Some(types) => {
                let ghost tv = types@.map_values(|t: String| t@);
                let mut i: usize = 0;
                assert(tv.take(0) =~= Seq::<Seq<char>>::empty());
                assert(signature_views(out@) =~= Seq::<SignatureView>::empty());
                while i < types.len()
                    invariant
                        i <= types.len(),
                        tv == types@.map_values(|t: String| t@),
                        signature_views(out@) == methods_of_types(
                            self.methods(),
                            tv.take(i as int),
                            method_name@,
                        ),
                    decreases types.len() - i,
                {
                    assert(tv.take(i + 1).drop_last() =~= tv.take(i as int));
                    match self.get_method(types[i].as_str(), method_name) {
                        Some(sig) => {
                            out.push(sig);
                            assert(signature_views(out@) =~= methods_of_types(
                                self.methods(),
                                tv.take(i as int),
                                method_name@,
                            ).push(sig@));
                        },
                        None => {},
                    }
                    i = i + 1;
                }
                assert(tv.take(i as int) =~= tv);
            },
        }
        out
    }

    /// Registers `owner_type` as a type that defines `method_name`.
    pub fn register_method_lookup(&mut self, method_name: String, owner_type: String)
        ensures
            final(self).method_types() == with_registered(
                old(self).method_types(),
                method_name@,
                owner_type@,
            ),
            final(self).functions() == old(self).functions(),
            final(self).methods() == old(self).methods(),
    {
        let mut types: Vec<String> = match lookup_table_get(&self.method_lookup, method_name.as_str()) {
            Some(v) => v,
            None => Vec::new(),
        };
        assert(str_views(types@) == registered_types(old(self).method_types(), method_name@));
        register_type(&mut types, owner_type);
        lookup_table_insert(&mut self.method_lookup, method_name, types);
    }
}

/// Where a method call resolves to.
#[derive(Debug)]
pub enum MethodResolution {
    /// The method of the inferred receiver type.
    Exact(FunctionSignature),
    /// Every method of that name: the call might reach any of them.
    Candidates(Vec<FunctionSignature>),
    /// Nothing known of that name; the call is kept as unresolved.
    Unresolved,
}

impl MemorySymbolStore {
    /// `r` is what a call of `method` resolves to by name alone: every stored
    /// method of that name, or unresolved where there is none.
    pub open spec fn resolved_by_name(&self, r: MethodResolution, method: Seq<char>) -> bool {
        let found = methods_of_types(
            self.methods(),
            registered_types(self.method_types(), method),
            method,
        );
        if found.len() > 0 {
            r matches MethodResolution::Candidates(v) && signature_views(v@) == found
        } else {
            r is Unresolved
        }
    }

    /// Resolves a call of `method_name` on a receiver of the inferred type
    /// `receiver_type`, if any: the exact method where it is stored, else
    /// every stored method of that name, else unresolved.
    pub fn resolve_method_call(&self, receiver_type: Option<&str>, method_name: &str) -> (r:
        MethodResolution)
        ensures
            (receiver_type matches Some(t) && self.methods().contains_key((t@, method_name@))) ==> (
            r matches MethodResolution::Exact(sig) && sig@ == self.methods()[(
                receiver_type->Some_0@,
                method_name@,
            )]),
            !(receiver_type matches Some(t) && self.methods().contains_key((t@, method_name@)))
                ==> self.resolved_by_name(r, method_name@),
    {
        if let Some(t) = receiver_type {
            if let Some(sig) = self.get_method(t, method_name) {
                return MethodResolution::Exact(sig);
            }
        }
        let found = self.find_methods_by_name(method_name);
        if found.len() > 0 {
            MethodResolution::Candidates(found)
        } else {
            MethodResolution::Unresolved
        }
    }
}

impl Default for MemorySymbolStore {
    fn default() -> (r: MemorySymbolStore)
        ensures
            forall|k: Seq<char>| !r.functions().contains_key(k),
            forall|k: (Seq<char>, Seq<char>)| !r.methods().contains_key(k),
            forall|k: Seq<char>| !r.method_types().contains_key(k),
    {
        MemorySymbolStore::new()
    }
}

impl SymbolStore for MemorySymbolStore {
    fn insert_function(&mut self, key: String, sig: FunctionSignature) {
        MemorySymbolStore::insert_function(self, key, sig)
    }

    fn insert_method(&mut self, owner_type: String, method_name: String, sig: FunctionSignature) {
        MemorySymbolStore::insert_method(self, owner_type, method_name, sig)
    }

    fn get_function(&self, key: &str) -> Option<FunctionSignature> {
        MemorySymbolStore::get_function(self, key)
    }

    fn get_method(&self, owner_type: &str, method_name: &str) -> Option<FunctionSignature> {
        MemorySymbolStore::get_method(self, owner_type, method_name)
    }

    fn find_methods_by_name(&self, method_name: &str) -> Vec<FunctionSignature> {
        MemorySymbolStore::find_methods_by_name(self, method_name)
    }

    fn register_method_lookup(&mut self, method_name: String, owner_type: String) {
        MemorySymbolStore::register_method_lookup(self, method_name, owner_type)
    }
}

/// Storing a function and then reading the same key gives back that signature.
pub proof fn lemma_function_round_trip(
    before: MemorySymbolStore,
    after: MemorySymbolStore,
    key: Seq<char>,
    sig: SignatureView,
)
    requires
        after.functions() == before.functions().insert(key, sig),
    ensures
        after.functions().contains_key(key),
        after.functions()[key] == sig,
{
}

/// A signature is found for `method` over `types` exactly when one of the
/// types has that method stored with that signature.
pub proof fn lemma_methods_of_types_members(
    methods: Map<(Seq<char>, Seq<char>), SignatureView>,
    types: Seq<Seq<char>>,
    method: Seq<char>,
    x: SignatureView,
)
    ensures
        methods_of_types(methods, types, method).contains(x) <==> exists|t: Seq<char>|
            #[trigger] types.contains(t) && methods.contains_key((t, method)) && methods[(t, method)]
                == x,
    decreases types.len(),
{
    let found = methods_of_types(methods, types, method);
    if types.len() == 0 {
        assert(!found.contains(x));
        assert forall|t: Seq<char>| !types.contains(t) by {}
    } else {
        let rest = types.drop_last();
        let key = (types.last(), method);
        let before = methods_of_types(methods, rest, method);
        lemma_methods_of_types_members(methods, rest, method, x);
        if found.contains(x) {
            let j = choose|j: int| 0 <= j < found.len() && found[j] == x;
            if j < before.len() {
                assert(before[j] == x);
                assert(before.contains(x));
                let t = choose|t: Seq<char>|
                    #[trigger] rest.contains(t) && methods.contains_key((t, method)) && methods[(
                    t,
                    method,
                )] == x;
                let i = choose|i: int| 0 <= i < rest.len() && rest[i] == t;
                assert(types[i] == t);
                assert(types.contains(t));
            } else {
                assert(methods.contains_key(key) && methods[key] == x);
                assert(types[types.len() - 1] == types.last());
                assert(types.contains(types.last()));
            }
        }
        if exists|t: Seq<char>|
            #[trigger] types.contains(t) && methods.contains_key((t, method)) && methods[(t, method)]
                == x {
            let t = choose|t: Seq<char>|
                #[trigger] types.contains(t) && methods.contains_key((t, method)) && methods[(
                t,
                method,
            )] == x;
            let j = choose|j: int| 0 <= j < types.len() && types[j] == t;
            if j < types.len() - 1 {
                assert(rest[j] == t);
                assert(rest.contains(t));
                assert(before.contains(x));
                let j2 = choose|j2: int| 0 <= j2 < before.len() && before[j2] == x;
                assert(found[j2] == x);
            } else {
                assert(t == types.last());
                assert(found[found.len() - 1] == x);
            }
        }
    }
}

/// The signatures found for a method name depend only on which types were
/// registered for it, not on the order of registration.
pub proof fn lemma_found_methods_order_independent(
    methods: Map<(Seq<char>, Seq<char>), SignatureView>,
    types1: Seq<Seq<char>>,
    types2: Seq<Seq<char>>,
    method: Seq<char>,
)
    requires
        types1.to_set() == types2.to_set(),
    ensures
        methods_of_types(methods, types1, method).to_set() == methods_of_types(
            methods,
            types2,
            method,
        ).to_set(),
{
    assert forall|x: SignatureView|
        methods_of_types(methods, types1, method).to_set().contains(x) == methods_of_types(
            methods,
            types2,
            method,
        ).to_set().contains(x) by {
        lemma_methods_of_types_members(methods, types1, method, x);
        lemma_methods_of_types_members(methods, types2, method, x);
        assert forall|t: Seq<char>| types1.contains(t) == types2.contains(t) by {
            assert(types1.to_set().contains(t) == types1.contains(t));
            assert(types2.to_set().contains(t) == types2.contains(t));
            assert(types1.to_set().contains(t) == types2.to_set().contains(t));
        }
    }
    assert(methods_of_types(methods, types1, method).to_set() =~= methods_of_types(
        methods,
        types2,
        method,
    ).to_set());
}

} // verus!
