//! A socket.io style socket: a room membership set and a registry of
//! message handlers, generic over the handler type the owner supplies.
//! The connection work itself lives with the engine.io connection layer.

use crate::text::str_eq;
use vstd::prelude::*;

verus! {

/// An instance of a socket.io socket.
pub struct Socket<H> {
    handlers: Vec<(String, Vec<H>)>,
    namespace: String,
    rooms: Vec<String>,
}

/// How a handler registration changes the registry: the handler joins the
/// list under its message name, and a new name is appended at the end.
pub open spec fn registered<H>(
    h0: Seq<(Seq<char>, Seq<H>)>,
    h1: Seq<(Seq<char>, Seq<H>)>,
    msg: Seq<char>,
    handler: H,
) -> bool {
    if exists|i: int| 0 <= i < h0.len() && (#[trigger] h0[i]).0 == msg {
        let i = choose|i: int| 0 <= i < h0.len() && (#[trigger] h0[i]).0 == msg;
        h1 == h0.update(i, (msg, h0[i].1.push(handler)))
    } else {
        h1 == h0.push((msg, seq![handler]))
    }
}

impl<H> Socket<H> {
    /// The rooms this socket has entered, in entry order.
    pub closed spec fn rooms_view(self) -> Seq<Seq<char>> {
        self.rooms.deep_view()
    }

    /// The handler registry: one entry per message name, in registration
    /// order, each carrying its handlers in registration order.
    pub closed spec fn handlers_view(self) -> Seq<(Seq<char>, Seq<H>)> {
        Seq::new(self.handlers@.len(), |i: int| (self.handlers@[i].0@, self.handlers@[i].1@))
    }

    /// The socket's namespace.
    pub closed spec fn namespace_view(self) -> Seq<char> {
        self.namespace@
    }

    /// Well-formedness: no room and no message name appears twice.
    pub closed spec fn wf(self) -> bool {
        (forall|i: int, j: int|
            0 <= i < j < self.rooms_view().len() ==> #[trigger] self.rooms_view()[i]
                != #[trigger] self.rooms_view()[j]) && (forall|i: int, j: int|
            0 <= i < j < self.handlers_view().len() ==> (#[trigger] self.handlers_view()[i]).0 != (
            #[trigger] self.handlers_view()[j]).0)
    }

    /// A fresh socket: no rooms, no handlers, the default namespace.
    pub fn new() -> (s: Socket<H>)
        ensures
            s.wf(),
            s.rooms_view() == Seq::<Seq<char>>::empty(),
            s.handlers_view() == Seq::<(Seq<char>, Seq<H>)>::empty(),
            s.namespace_view() == Seq::<char>::empty(),
    {
        let s = Socket { handlers: Vec::new(), namespace: String::new(), rooms: Vec::new() };
        proof {
            assert(s.rooms_view() =~= Seq::<Seq<char>>::empty());
            assert(s.handlers_view() =~= Seq::<(Seq<char>, Seq<H>)>::empty());
        }
        s
    }

    /// Opens a connection to the given endpoint.  The transport work lives
    /// with the engine.io connection layer; the socket itself keeps no
    /// connection state, so there is nothing to record here.
    pub fn connect(_url: &str) {
    }

    /// Closes the socket's connection.  The socket keeps no connection
    /// state, so the socket itself is left as it is.
    pub fn disconnect(&mut self)
        ensures
            *final(self) == *old(self),
    {
    }

    /// Enters a room, returning whether the socket was not in it yet.
    pub fn enter(&mut self, room: &str) -> (r: bool)
        requires
            old(self).wf(),
        ensures
            final(self).wf(),
            final(self).handlers_view() == old(self).handlers_view(),
            final(self).namespace_view() == old(self).namespace_view(),
            r == !old(self).rooms_view().contains(room@),
            r ==> final(self).rooms_view() == old(self).rooms_view().push(room@),
            !r ==> final(self).rooms_view() == old(self).rooms_view(),
    {
        let n = self.rooms.len();
        let mut i: usize = 0;
        while i < n
            invariant
                old(self).wf(),
                i <= n,
                n == self.rooms@.len(),
                *self == *old(self),
                forall|k: int| 0 <= k < i ==> old(self).rooms_view()[k] != room@,
            decreases n - i,
        {
            if str_eq(self.rooms[i].as_str(), room) {
                proof {
                    assert(old(self).rooms_view()[i as int] == room@);
                }
                return false;
            }
            i = i + 1;
        }
        self.rooms.push(room.to_owned());
        proof {
            assert(self.rooms_view() =~= old(self).rooms_view().push(room@));
            assert(self.handlers_view() =~= old(self).handlers_view());
        }
        true
    }

    /// Leaves a room, returning whether the socket was in it.
    pub fn leave(&mut self, room: &str) -> (r: bool)
        requires
            old(self).wf(),
        ensures
            final(self).wf(),
            final(self).handlers_view() == old(self).handlers_view(),
            final(self).namespace_view() == old(self).namespace_view(),
            r == old(self).rooms_view().contains(room@),
            !r ==> final(self).rooms_view() == old(self).rooms_view(),
            r ==> exists|i: int|
                0 <= i < old(self).rooms_view().len() && old(self).rooms_view()[i] == room@
                    && final(self).rooms_view() == old(self).rooms_view().remove(i),
    {
        let n = self.rooms.len();
        let mut i: usize = 0;
        while i < n
            invariant
                old(self).wf(),
                i <= n,
                n == self.rooms@.len(),
                *self == *old(self),
                forall|k: int| 0 <= k < i ==> old(self).rooms_view()[k] != room@,
            decreases n - i,
        {
            if str_eq(self.rooms[i].as_str(), room) {
                proof {
                    assert(old(self).rooms_view()[i as int] == room@);
                }
                self.rooms.remove(i);
                proof {
                    assert(self.rooms_view() =~= old(self).rooms_view().remove(i as int));
                    assert(self.handlers_view() =~= old(self).handlers_view());
                    assert forall|a: int, b: int|
                        0 <= a < b < self.rooms_view().len() implies #[trigger] self.rooms_view()[a] != #[trigger] self.rooms_view()[b] by {
                        let a0 = if a < i as int {
                            a
                        } else {
                            a + 1
                        };
                        let b0 = if b < i as int {
                            b
                        } else {
                            b + 1
                        };
                        assert(self.rooms_view()[a] == old(self).rooms_view()[a0]);
                        assert(self.rooms_view()[b] == old(self).rooms_view()[b0]);
                    }
                }
                return true;
            }
            i = i + 1;
        }
        proof {
            assert(!old(self).rooms_view().contains(room@));
        }
        false
    }

    /// Registers a handler and hands the socket back, for chaining.
    pub fn on(self, msg: &str, handler: H) -> (r: Socket<H>)
        requires
            self.wf(),
        ensures
            r.wf(),
            r.rooms_view() == self.rooms_view(),
            r.namespace_view() == self.namespace_view(),
            registered(self.handlers_view(), r.handlers_view(), msg@, handler),
    {
        let mut s = self;
        s.register(msg, handler);
        s
    }

    /// Registers a callback for event receival.
    pub fn register(&mut self, msg: &str, handler: H)
        requires
            old(self).wf(),
        ensures
            final(self).wf(),
            final(self).rooms_view() == old(self).rooms_view(),
            final(self).namespace_view() == old(self).namespace_view(),
            registered(old(self).handlers_view(), final(self).handlers_view(), msg@, handler),
    {
        let ghost h0 = old(self).handlers_view();
        let n = self.handlers.len();
        let mut i: usize = 0;
        while i < n
            invariant
                old(self).wf(),
                i <= n,
                n == self.handlers@.len(),
                *self == *old(self),
                h0 == old(self).handlers_view(),
                forall|k: int| 0 <= k < i ==> (#[trigger] h0[k]).0 != msg@,
            decreases n - i,
        {
            if str_eq(self.handlers[i].0.as_str(), msg) {
                proof {
                    assert(h0[i as int].0 == msg@);
                }
                let mut entry = self.handlers.remove(i);
                entry.1.push(handler);
                self.handlers.insert(i, entry);
                proof {
                    let i0 = choose|k: int| 0 <= k < h0.len() && (#[trigger] h0[k]).0 == msg@;
                    assert(i0 == i as int);
                    assert(self.handlers_view() =~~= h0.update(
                        i as int,
                        (msg@, h0[i as int].1.push(handler)),
                    ));
                    assert(self.rooms_view() =~= old(self).rooms_view());
                    assert forall|a: int, b: int|
                        0 <= a < b < self.handlers_view().len() implies (#[trigger] self.handlers_view()[a]).0 != (#[trigger] self.handlers_view()[b]).0 by {
                        assert(self.handlers_view()[a].0 == h0[a].0);
                        assert(self.handlers_view()[b].0 == h0[b].0);
                    }
                }
                return ;
            }
            i = i + 1;
        }
        let mut hs: Vec<H> = Vec::new();
        hs.push(handler);
        proof {
            assert(hs@ =~= seq![handler]);
        }
        self.handlers.push((msg.to_owned(), hs));
        proof {
            assert(self.handlers_view() =~~= h0.push((msg@, seq![handler])));
            assert(self.rooms_view() =~= old(self).rooms_view());
            assert forall|a: int, b: int|
                0 <= a < b < self.handlers_view().len() implies (#[trigger] self.handlers_view()[a]).0 != (#[trigger] self.handlers_view()[b]).0 by {
                if b < h0.len() {
                    assert(self.handlers_view()[a].0 == h0[a].0);
                    assert(self.handlers_view()[b].0 == h0[b].0);
                } else {
                    assert(self.handlers_view()[a].0 == h0[a].0);
                    assert(self.handlers_view()[b].0 == msg@);
                }
            }
        }
    }
}

/// The handler type the websocket pool drives; the pool itself lives with
/// the driver outside this crate.
pub struct SocketHandler;

} // verus!
