//! The registry of backend contexts, one per listening port.
use std::collections::BTreeMap;
use std::sync::Arc;
use vstd::prelude::*;

verus! {

/// The contexts of the running backends, by port.
#[verifier::reject_recursive_types(C)]
pub struct Global<C> {
    contexts: BTreeMap<i64, Arc<C>>,
}

impl<C> Global<C> {
    pub closed spec fn contexts(&self) -> Map<i64, Arc<C>> {
        self.contexts@
    }

    pub fn new() -> (g: Self)
        ensures
            g.contexts() == Map::<i64, Arc<C>>::empty(),
    {
        Global { contexts: BTreeMap::new() }
    }
}

/// The context registered for `port`.
pub fn context<C>(g: &Global<C>, port: i64) -> (c: Option<&Arc<C>>)
    ensures
        match c {
            Some(c) => g.contexts().contains_key(port) && *c == g.contexts()[port],
            None => !g.contexts().contains_key(port),
        },
{
    broadcast use vstd::std_specs::btree::group_btree_axioms;
    g.contexts.get(&port)
}

/// Registers the context of `port`, replacing any earlier one.
pub fn reg_context<C>(g: &mut Global<C>, port: i64, c: Arc<C>)
    ensures
        final(g).contexts() == old(g).contexts().insert(port, c),
{
    broadcast use vstd::std_specs::btree::group_btree_axioms;
    g.contexts.insert(port, c);
}

/// Drops the context of `port`.
pub fn unreg_context<C>(g: &mut Global<C>, port: i64)
    ensures
        final(g).contexts() == old(g).contexts().remove(port),
{
    broadcast use vstd::std_specs::btree::group_btree_axioms;
    g.contexts.remove(&port);
}

/// A registered context is found until it is unregistered, and never after.
pub proof fn lemma_reg_then_unreg<C>(m: Map<i64, Arc<C>>, port: i64, c: Arc<C>, other: i64)
    ensures
        m.insert(port, c).contains_key(port) && m.insert(port, c)[port] == c,
        !m.insert(port, c).remove(port).contains_key(port),
        other != port ==> m.insert(port, c).remove(port).contains_key(other) == m.contains_key(
            other,
        ),
{
}

} // verus!
