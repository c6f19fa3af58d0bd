//! A group of udp sockets.

use crate::errors::ErrorKind;
use crate::net::SocketAddr;
use vstd::prelude::*;

verus! {

/// A sender send data via a udp group. Each socket has a number, and is known by the address that it
/// is bound to.
pub struct UdpGroupSender {
    sockets: Vec<(SocketAddr, usize)>,
}

/// The number that `sockets` holds for each address.
spec fn sockets_by_addr(sockets: Seq<(SocketAddr, usize)>) -> Map<SocketAddr, usize> {
    Map::new(
        |addr: SocketAddr| exists|i: int| 0 <= i < sockets.len() && #[trigger] sockets[i].0 == addr,
        |addr: SocketAddr|
            sockets[choose|i: int| 0 <= i < sockets.len() && #[trigger] sockets[i].0 == addr].1,
    )
}

impl View for UdpGroupSender {
    type V = Map<SocketAddr, usize>;

    /// The number of the socket that is bound to each address.
    closed spec fn view(&self) -> Map<SocketAddr, usize> {
        sockets_by_addr(self.sockets@)
    }
}

/// The number of the socket among `sockets` to send a datagram from `from` with.
pub open spec fn socket_for(sockets: Map<SocketAddr, usize>, from: SocketAddr) -> Result<
    usize,
    ErrorKind,
> {
    if !sockets.contains_key(from) {
        Err(ErrorKind::AddrNotAvailable)
    } else {
        Ok(sockets[from])
    }
}

impl UdpGroupSender {
    /// No two sockets are bound to one address.
    pub closed spec fn wf(self) -> bool {
        forall|i: int, j: int|
            0 <= i < j < self.sockets@.len() ==> self.sockets@[i].0 != self.sockets@[j].0
    }

    /// Creates a group without sockets.
    pub fn new() -> (group: Self)
        ensures
            group.wf(),
            group@ == Map::<SocketAddr, usize>::empty(),
    {
        let group = UdpGroupSender { sockets: Vec::new() };
        assert(group@ =~= Map::<SocketAddr, usize>::empty());
        group
    }

    /// Looks for the position of the socket that is bound to `addr`.
    fn position(&self, addr: SocketAddr) -> (res: Option<usize>)
        requires
            self.wf(),
        ensures
            match res {
                Some(i) => i < self.sockets@.len() && self.sockets@[i as int].0 == addr
                    && self@.contains_key(addr) && self@[addr] == self.sockets@[i as int].1,
                None => !self@.contains_key(addr),
            },
    {
        let mut i: usize = 0;
        while i < self.sockets.len()
            invariant
                self.wf(),
                i <= self.sockets@.len(),
                forall|k: int| 0 <= k < i ==> (#[trigger] self.sockets@[k]).0 != addr,
            decreases self.sockets.len() - i,
        {
            if self.sockets[i].0 == addr {
                assert(self.sockets@[i as int].0 == addr);
                return Some(i);
            }
            i = i + 1;
        }
        None
    }

    /// Adds the socket with number `number`, which is bound to `laddr`. It takes the place of an
    /// earlier socket that is bound to the same address.
    pub fn insert(&mut self, laddr: SocketAddr, number: usize)
        requires
            old(self).wf(),
        ensures
            final(self).wf(),
            final(self)@ == old(self)@.insert(laddr, number),
    {
        let ghost before = self.sockets@;
        let ghost mut at: int = before.len() as int;
        match self.position(laddr) {
            Some(i) => {
                proof {
                    at = i as int;
                }
                self.sockets.set(i, (laddr, number));
            },
            None => {
                proof {
                    assert forall|k: int| 0 <= k < before.len() implies (#[trigger] before[k]).0
                        != laddr by {
                        if before[k].0 == laddr {
                            assert(self@.contains_key(laddr));
                        }
                    }
                }
                self.sockets.push((laddr, number));
            },
        }
        proof {
            let after = self.sockets@;
            assert forall|addr: SocketAddr| #[trigger]
                self@.contains_key(addr) <==> old(self)@.insert(laddr, number).contains_key(
                    addr,
                ) by {
                if exists|i: int| 0 <= i < before.len() && #[trigger] before[i].0 == addr {
                    let i = choose|i: int| 0 <= i < before.len() && #[trigger] before[i].0 == addr;
                    assert(after[i].0 == addr);
                }
                if exists|i: int| 0 <= i < after.len() && #[trigger] after[i].0 == addr {
                    let i = choose|i: int| 0 <= i < after.len() && #[trigger] after[i].0 == addr;
                    if i < before.len() && addr != laddr {
                        assert(before[i].0 == addr);
                    }
                }
                assert(after[at].0 == laddr);
            }
            assert forall|addr: SocketAddr| #[trigger]
                self@.contains_key(addr) implies self@[addr] == old(self)@.insert(
                laddr,
                number,
            )[addr] by {
                let i = choose|i: int| 0 <= i < after.len() && #[trigger] after[i].0 == addr;
                if addr != laddr {
                    assert(before[i].0 == addr);
                    let j = choose|j: int|
                        0 <= j < before.len() && #[trigger] before[j].0 == addr;
                    assert(i == j);
                }
            }
            assert(self@ =~= old(self)@.insert(laddr, number));
        }
    }

    /// Returns the local bound addresses, each once.
    pub fn local_addrs(&self) -> (addrs: Vec<SocketAddr>)
        requires
            self.wf(),
        ensures
            addrs@.no_duplicates(),
            addrs@.to_set() == self@.dom(),
    {
        let mut addrs: Vec<SocketAddr> = Vec::new();
        let mut i: usize = 0;
        while i < self.sockets.len()
            invariant
                self.wf(),
                i <= self.sockets@.len(),
                addrs@.len() == i,
                forall|k: int| 0 <= k < i ==> #[trigger] addrs@[k] == self.sockets@[k].0,
            decreases self.sockets.len() - i,
        {
            addrs.push(self.sockets[i].0);
            i = i + 1;
        }
        proof {
            assert forall|addr: SocketAddr| #[trigger]
                addrs@.to_set().contains(addr) <==> self@.contains_key(addr) by {
                if self@.contains_key(addr) {
                    let k = choose|k: int|
                        0 <= k < self.sockets@.len() && #[trigger] self.sockets@[k].0 == addr;
                    assert(addrs@[k] == addr);
                }
                if addrs@.contains(addr) {
                    let k = choose|k: int| 0 <= k < addrs@.len() && addrs@[k] == addr;
                    assert(self.sockets@[k].0 == addr);
                }
            }
            assert(addrs@.to_set() =~= self@.dom());
        }
        addrs
    }

    /// Returns the number of the socket to send a datagram from `from` with.
    ///
    /// Fails with [`ErrorKind::AddrNotAvailable`] if no socket is bound to `from`.
    pub fn send(&self, from: SocketAddr) -> (res: Result<usize, ErrorKind>)
        requires
            self.wf(),
        ensures
            res == socket_for(self@, from),
            res == if self@.contains_key(from) {
                Ok::<usize, ErrorKind>(self@[from])
            } else {
                Err(ErrorKind::AddrNotAvailable)
            },
    {
        match self.position(from) {
            Some(i) => Ok(self.sockets[i].1),
            None => Err(ErrorKind::AddrNotAvailable),
        }
    }
}

} // verus!
