//! The event bus of the media cache: it passes each event on to the IO
//! loop, the reverse handler or a connection, and keeps the table of open
//! connections.
use std::collections::BTreeMap;
use vstd::prelude::*;

use crate::io::ReadState;

verus! {

/// What reaches the bus. `C` is the sender of a connection, `B` a buffer of
/// bytes, `N` what announces a new remote file and `F` what announces a
/// finished one.
pub enum EventBus<C, B, N, F> {
    /// From a connection: read from `cursor` for connection `id` of `key`;
    /// whether a cache entry exists.
    RequestRead(String, i64, u64, bool),
    ReadContinue(i64),
    NewRemoteFile(N),
    NewConnection(i64, C),
    EndConnection(i64),
    /// From the IO loop: bytes read for a connection.
    ReadedBuf(i64, B, ReadState),
    DoRead,
    FinishFile(F),
    NoCache(i64),
    /// From the reverse handler.
    DbFinishFile(String),
    EndRemoteFile(i64),
    NoRemoteFile(i64),
}

/// What the IO loop is told.
#[derive(Debug, PartialEq)]
pub enum IoEvent {
    RequestRead(String, i64, u64, bool),
    ReadContinue(i64),
    EndConnection(i64),
    DoRead,
    EndWrite(String),
}

/// What the reverse handler is told.
pub enum ReverseCmd<N, F> {
    HasRemoteFile(i64),
    EndConnection(i64),
    NewRemoteFile(N),
    FinishFile(F),
    EndRemoteFile(i64),
}

/// What a connection is told.
pub enum ConnectionCmd<B> {
    ReadedBuf(B, ReadState),
    NoCache,
}

/// The messages one event gives rise to.
pub struct BusActions<B, N, F> {
    pub io: Option<IoEvent>,
    pub reverse: Option<ReverseCmd<N, F>>,
    /// For the connection with this id, which is open.
    pub connection: Option<(i64, ConnectionCmd<B>)>,
}

pub open spec fn only_io<B, N, F>(e: IoEvent) -> BusActions<B, N, F> {
    BusActions { io: Some(e), reverse: None, connection: None }
}

pub open spec fn only_reverse<B, N, F>(r: ReverseCmd<N, F>) -> BusActions<B, N, F> {
    BusActions { io: None, reverse: Some(r), connection: None }
}

pub open spec fn to_connection<B, N, F>(open: bool, id: i64, c: ConnectionCmd<B>) -> BusActions<
    B,
    N,
    F,
> {
    BusActions { io: None, reverse: None, connection: if open { Some((id, c)) } else { None } }
}

pub open spec fn no_action<B, N, F>() -> BusActions<B, N, F> {
    BusActions { io: None, reverse: None, connection: None }
}

/// Where an event goes, given the open connections.
pub open spec fn routed<C, B, N, F>(open: Map<i64, C>, ev: EventBus<C, B, N, F>) -> BusActions<
    B,
    N,
    F,
> {
    match ev {
        EventBus::RequestRead(key, id, cursor, has_cache) => only_io(
            IoEvent::RequestRead(key, id, cursor, has_cache),
        ),
        EventBus::NoCache(id) => only_reverse(ReverseCmd::HasRemoteFile(id)),
        EventBus::ReadedBuf(id, bytes, state) => to_connection(
            open.contains_key(id),
            id,
            ConnectionCmd::ReadedBuf(bytes, state),
        ),
        EventBus::ReadContinue(id) => only_io(IoEvent::ReadContinue(id)),
        EventBus::NewConnection(_, _) => no_action(),
        EventBus::EndConnection(id) => BusActions {
            io: Some(IoEvent::EndConnection(id)),
            reverse: Some(ReverseCmd::EndConnection(id)),
            connection: None,
        },
        EventBus::DoRead => only_io(IoEvent::DoRead),
        EventBus::NewRemoteFile(n) => only_reverse(ReverseCmd::NewRemoteFile(n)),
        EventBus::FinishFile(f) => only_reverse(ReverseCmd::FinishFile(f)),
        EventBus::DbFinishFile(key) => only_io(IoEvent::EndWrite(key)),
        EventBus::EndRemoteFile(id) => only_reverse(ReverseCmd::EndRemoteFile(id)),
        EventBus::NoRemoteFile(id) => to_connection(open.contains_key(id), id, ConnectionCmd::NoCache),
    }
}

/// The open connections after an event.
pub open spec fn open_after<C, B, N, F>(open: Map<i64, C>, ev: EventBus<C, B, N, F>) -> Map<i64, C> {
    match ev {
        EventBus::NewConnection(id, tx) => open.insert(id, tx),
        EventBus::EndConnection(id) => open.remove(id),
        _ => open,
    }
}

/// The bus's table of open connections, by id.
#[verifier::reject_recursive_types(C)]
pub struct BusRouter<C> {
    resource: BTreeMap<i64, C>,
}

impl<C> BusRouter<C> {
    pub closed spec fn open(&self) -> Map<i64, C> {
        self.resource@
    }

    pub fn new() -> (r: Self)
        ensures
            r.open() == Map::<i64, C>::empty(),
    {
        BusRouter { resource: BTreeMap::new() }
    }

    /// Takes one event (the body of the bus loop): updates the table and
    /// says where the event goes.
    pub fn route<B, N, F>(&mut self, ev: EventBus<C, B, N, F>) -> (acts: BusActions<B, N, F>)
        ensures
            acts == routed(old(self).open(), ev),
            final(self).open() == open_after(old(self).open(), ev),
    {
        broadcast use vstd::std_specs::btree::group_btree_axioms;
        match ev {
            EventBus::RequestRead(key, id, cursor, has_cache) => BusActions {
                io: Some(IoEvent::RequestRead(key, id, cursor, has_cache)),
                reverse: None,
                connection: None,
            },
            EventBus::NoCache(id) => BusActions {
                io: None,
                reverse: Some(ReverseCmd::HasRemoteFile(id)),
                connection: None,
            },
            EventBus::ReadedBuf(id, bytes, state) => {
                let open = self.resource.contains_key(&id);
                BusActions {
                    io: None,
                    reverse: None,
                    connection: if open {
                        Some((id, ConnectionCmd::ReadedBuf(bytes, state)))
                    } else {
                        None
                    },
                }
            },
            EventBus::ReadContinue(id) => BusActions {
                io: Some(IoEvent::ReadContinue(id)),
                reverse: None,
                connection: None,
            },
            EventBus::NewConnection(id, tx) => {
                self.resource.insert(id, tx);
                BusActions { io: None, reverse: None, connection: None }
            },
            EventBus::EndConnection(id) => {
                self.resource.remove(&id);
                BusActions {
                    io: Some(IoEvent::EndConnection(id)),
                    reverse: Some(ReverseCmd::EndConnection(id)),
                    connection: None,
                }
            },
            EventBus::DoRead => BusActions { io: Some(IoEvent::DoRead), reverse: None, connection: None },
            EventBus::NewRemoteFile(n) => BusActions {
                io: None,
                reverse: Some(ReverseCmd::NewRemoteFile(n)),
                connection: None,
            },
            EventBus::FinishFile(f) => BusActions {
                io: None,
                reverse: Some(ReverseCmd::FinishFile(f)),
                connection: None,
            },
            EventBus::DbFinishFile(key) => BusActions {
                io: Some(IoEvent::EndWrite(key)),
                reverse: None,
                connection: None,
            },
            EventBus::EndRemoteFile(id) => BusActions {
                io: None,
                reverse: Some(ReverseCmd::EndRemoteFile(id)),
                connection: None,
            },
            EventBus::NoRemoteFile(id) => {
                let open = self.resource.contains_key(&id);
                BusActions {
                    io: None,
                    reverse: None,
                    connection: if open {
                        Some((id, ConnectionCmd::NoCache))
                    } else {
                        None
                    },
                }
            },
        }
    }

    /// The sender of an open connection.
    pub fn connection(&self, id: i64) -> (c: Option<&C>)
        ensures
            match c {
                Some(c) => self.open().contains_key(id) && *c == self.open()[id],
                None => !self.open().contains_key(id),
            },
    {
        broadcast use vstd::std_specs::btree::group_btree_axioms;
        self.resource.get(&id)
    }

    /// Forgets a connection whose sender failed: it is gone.
    pub fn drop_connection(&mut self, id: i64)
        ensures
            final(self).open() == old(self).open().remove(id),
    {
        broadcast use vstd::std_specs::btree::group_btree_axioms;
        self.resource.remove(&id);
    }

    /// How many connections are open.
    pub fn active(&self) -> (n: usize)
        ensures
            n == self.open().len(),
    {
        broadcast use vstd::std_specs::btree::group_btree_axioms;
        self.resource.len()
    }
}

/// A connection hears from the bus only while it is open: once ended, the
/// bytes read for it and its "no cache" answer go nowhere.
pub proof fn lemma_ended_connection_hears_nothing<C, B, N, F>(
    open: Map<i64, C>,
    id: i64,
    ev: EventBus<C, B, N, F>,
)
    requires
        (ev matches EventBus::ReadedBuf(i, _, _) && i == id) || (ev matches EventBus::NoRemoteFile(i)
            && i == id),
    ensures
        routed(open.remove(id), ev).connection is None,
{
}

} // verus!
