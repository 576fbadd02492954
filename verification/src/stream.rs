//! Streams as they are handed to the accepting end's handler.

use vstd::prelude::*;

use crate::addr::SocketAddrPair;
use crate::lane::LaneClass;

verus! {

/// An accepted stream: what is read from, what is written to, the session it
/// came in on and the lane on which it was opened.
#[derive(Debug)]
pub enum ServerStream<R, W> {
    MigratingDuplex { reader: R, writer: W, addr: SocketAddrPair, source_lane: LaneClass },
}

impl<R, W> ServerStream<R, W> {
    pub fn addr(&self) -> (r: SocketAddrPair)
        ensures
            r == match *self {
                ServerStream::MigratingDuplex { addr, .. } => addr,
            },
    {
        match self {
            ServerStream::MigratingDuplex { addr, .. } => *addr,
        }
    }

    pub fn source_lane(&self) -> (r: LaneClass)
        ensures
            r == match *self {
                ServerStream::MigratingDuplex { source_lane, .. } => source_lane,
            },
    {
        match self {
            ServerStream::MigratingDuplex { source_lane, .. } => *source_lane,
        }
    }
}

} // verus!
