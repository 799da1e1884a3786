//! The cache of thunks: the thunk made for a function (with its type arguments) or
//! for a witness method is made once and found again by every later reference.

use vstd::prelude::*;

use crate::context::LoweringContext;
use crate::mir::{NameId, TyId};

verus! {

/// The key of a cached thunk: the function's name and its type arguments (for a
/// witness thunk, the protocol's name and the type it is for).
#[derive(Debug)]
pub struct ThunkKey {
    pub func_name: NameId,
    pub type_args: Vec<TyId>,
}

/// The view of a key.
pub open spec fn key_view(k: &ThunkKey) -> (NameId, Seq<TyId>) {
    (k.func_name, k.type_args@)
}

/// The thunks made so far, in the order they were made.
#[derive(Debug)]
pub struct ThunkCache {
    pub entries: Vec<(ThunkKey, NameId)>,
}

/// The views of cache entries.
pub open spec fn entries_view(es: Seq<(ThunkKey, NameId)>) -> Seq<((NameId, Seq<TyId>), NameId)> {
    es.map_values(|e: (ThunkKey, NameId)| (key_view(&e.0), e.1))
}

/// The thunk stored for key `k`: that of the last entry with the key (a later
/// entry replaces an earlier one), if any.
pub open spec fn cache_lookup(es: Seq<((NameId, Seq<TyId>), NameId)>, k: (NameId, Seq<TyId>)) -> Option<NameId>
    decreases es.len(),
{
    if es.len() == 0 {
        None
    } else if es.last().0 == k {
        Some(es.last().1)
    } else {
        cache_lookup(es.drop_last(), k)
    }
}

impl ThunkCache {
    /// The entries of the cache.
    pub open spec fn view_entries(&self) -> Seq<((NameId, Seq<TyId>), NameId)> {
        entries_view(self.entries@)
    }

    /// An empty cache.
    pub fn new() -> (r: ThunkCache)
        ensures
            r.view_entries().len() == 0,
    {
        ThunkCache { entries: Vec::new() }
    }

    /// The thunk stored for a key.
    pub fn lookup(&self, func_name: NameId, type_args: &Vec<TyId>) -> (r: Option<NameId>)
        ensures
            r == cache_lookup(self.view_entries(), (func_name, type_args@)),
    {
        let ghost es = self.view_entries();
        let mut i: usize = self.entries.len();
        assert(es.take(i as int) =~= es);
        while i > 0
            invariant
                i <= self.entries@.len(),
                es == self.view_entries(),
                cache_lookup(es, (func_name, type_args@)) == cache_lookup(es.take(i as int), (func_name, type_args@)),
            decreases i,
        {
            let e = &self.entries[i - 1];
            assert(es.take(i as int).last() == es[i - 1]);
            assert(es.take(i as int).drop_last() =~= es.take(i - 1));
            if e.0.func_name == func_name && same_types(&e.0.type_args, type_args) {
                return Some(e.1);
            }
            i = i - 1;
        }
        assert(es.take(0) =~= Seq::<((NameId, Seq<TyId>), NameId)>::empty());
        None
    }

    /// Stores the thunk for a key.
    pub fn insert(&mut self, func_name: NameId, type_args: Vec<TyId>, thunk: NameId)
        ensures
            final(self).view_entries() == old(self).view_entries().push(((func_name, type_args@), thunk)),
    {
        self.entries.push((ThunkKey { func_name, type_args }, thunk));
        assert(self.view_entries() =~= old(self).view_entries().push(((func_name, type_args@), thunk)));
    }
}

/// Whether two lists of types are the same.
fn same_types(a: &Vec<TyId>, b: &Vec<TyId>) -> (r: bool)
    ensures
        r == (a@ == b@),
{
    if a.len() != b.len() {
        return false;
    }
    let mut i: usize = 0;
    while i < a.len()
        invariant
            a@.len() == b@.len(),
            i <= a@.len(),
            forall|j: int| 0 <= j < i ==> a@[j] == b@[j],
        decreases a.len() - i,
    {
        if a[i].0 != b[i].0 {
            return false;
        }
        i = i + 1;
    }
    assert(a@ =~= b@);
    true
}

impl LoweringContext {
    /// The thunk already made for a function with type arguments, if any; when
    /// there is none, the caller makes it and records it with
    /// `remember_function_thunk`.
    pub fn cached_function_thunk(&self, func_name: NameId, type_args: &Vec<TyId>) -> (r: Option<NameId>)
        ensures
            r == cache_lookup(self.thunk_cache.view_entries(), (func_name, type_args@)),
    {
        self.thunk_cache.lookup(func_name, type_args)
    }

    /// Records the thunk made for a function with type arguments.
    pub fn remember_function_thunk(&mut self, func_name: NameId, type_args: Vec<TyId>, thunk: NameId)
        ensures
            final(self).thunk_cache.view_entries() == old(self).thunk_cache.view_entries().push(
                ((func_name, type_args@), thunk),
            ),
            final(self).mir == old(self).mir,
            final(self).current_function == old(self).current_function,
            final(self).local_map == old(self).local_map,
            final(self).type_param_map == old(self).type_param_map,
            final(self).loop_stack == old(self).loop_stack,
            final(self).scope_stack == old(self).scope_stack,
            final(self).statement_temps == old(self).statement_temps,
            final(self).current_block == old(self).current_block,
            final(self).diagnostics == old(self).diagnostics,
            final(self).temp_counter == old(self).temp_counter,
            final(self).closure_counter == old(self).closure_counter,
            final(self).deinit_flag_counter == old(self).deinit_flag_counter,
    {
        self.thunk_cache.insert(func_name, type_args, thunk);
    }

    /// The thunk already made for a protocol's witness method for a type, if any.
    /// The cache keys it by the protocol and the type alone (the method's name is not
    /// part of the key).
    pub fn cached_witness_thunk(&self, protocol_name: NameId, for_type: TyId) -> (r: Option<NameId>)
        ensures
            r == cache_lookup(self.thunk_cache.view_entries(), (protocol_name, seq![for_type])),
    {
        let mut key_args: Vec<TyId> = Vec::new();
        key_args.push(for_type);
        assert(key_args@ =~= seq![for_type]);
        self.thunk_cache.lookup(protocol_name, &key_args)
    }

    /// Records the thunk made for a protocol's witness method for a type.
    pub fn remember_witness_thunk(&mut self, protocol_name: NameId, for_type: TyId, thunk: NameId)
        ensures
            final(self).thunk_cache.view_entries() == old(self).thunk_cache.view_entries().push(
                ((protocol_name, seq![for_type]), thunk),
            ),
            final(self).mir == old(self).mir,
            final(self).current_function == old(self).current_function,
            final(self).local_map == old(self).local_map,
            final(self).type_param_map == old(self).type_param_map,
            final(self).loop_stack == old(self).loop_stack,
            final(self).scope_stack == old(self).scope_stack,
            final(self).statement_temps == old(self).statement_temps,
            final(self).current_block == old(self).current_block,
            final(self).diagnostics == old(self).diagnostics,
            final(self).temp_counter == old(self).temp_counter,
            final(self).closure_counter == old(self).closure_counter,
            final(self).deinit_flag_counter == old(self).deinit_flag_counter,
    {
        let mut key_args: Vec<TyId> = Vec::new();
        key_args.push(for_type);
        assert(key_args@ =~= seq![for_type]);
        self.thunk_cache.insert(protocol_name, key_args, thunk);
    }
}

/// A thunk is made once: after the thunk made for a key is recorded, looking the
/// key up finds it (so a second reference makes no thunk and emits nothing), and
/// every other key finds what it found before.
pub proof fn law_thunk_found_after_recorded(
    es: Seq<((NameId, Seq<TyId>), NameId)>,
    k: (NameId, Seq<TyId>),
    thunk: NameId,
    other: (NameId, Seq<TyId>),
)
    ensures
        cache_lookup(es.push((k, thunk)), k) == Some(thunk),
        other != k ==> cache_lookup(es.push((k, thunk)), other) == cache_lookup(es, other),
{
    assert(es.push((k, thunk)).drop_last() =~= es);
}

} // verus!
