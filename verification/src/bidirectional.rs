//! A session both of whose ends open and accept streams. `O` opens them, `A`
//! accepts them, `D` runs the session.

use vstd::prelude::*;

use crate::addr::{SocketAddr, SocketAddrPair};

verus! {

#[derive(Debug)]
pub struct BidirectionalSession<O, A, D> {
    opener: O,
    accepter: A,
    addr: SocketAddrPair,
    driver: D,
}

impl<O, A, D> BidirectionalSession<O, A, D> {
    pub closed spec fn parts(&self) -> (O, A, SocketAddrPair, D) {
        (self.opener, self.accepter, self.addr, self.driver)
    }

    /// A session that was dialed from `local_addr` to `peer_addr`.
    pub fn new(
        opener: O,
        accepter: A,
        local_addr: SocketAddr,
        peer_addr: SocketAddr,
        driver: D,
    ) -> (r: Self)
        ensures
            r.parts() == (opener, accepter, SocketAddrPair { local_addr, peer_addr }, driver),
    {
        BidirectionalSession {
            opener,
            accepter,
            addr: SocketAddrPair { local_addr, peer_addr },
            driver,
        }
    }

    pub fn addr(&self) -> (r: SocketAddrPair)
        ensures
            r == self.parts().2,
    {
        self.addr
    }

    pub fn into_parts(self) -> (r: (O, A, SocketAddrPair, D))
        ensures
            r == self.parts(),
    {
        (self.opener, self.accepter, self.addr, self.driver)
    }
}

} // verus!
