//! Peer addresses and the unit exchanged with the transport.

use vstd::prelude::*;
use crate::framing::{Message, MessageView};

verus! {

/// A socket address of a peer, held as plain integers.
///
/// Two addresses are the same peer exactly when all their fields agree.
#[derive(Clone, Copy, Debug, PartialEq, Eq, Hash, Structural)]
pub enum PeerAddr {
    /// An IPv4 address, as the 32-bit integer of its four octets in network
    /// order, and a port.
    V4 { ip: u32, port: u16 },
    /// An IPv6 address, as the 128-bit integer of its eight segments in
    /// network order, with port, flow information and scope.
    V6 { ip6: u128, port: u16, flowinfo: u32, scope_id: u32 },
}

/// A message together with the peer it came from or goes to.
#[derive(Debug, PartialEq, Eq)]
pub struct DataGram {
    pub message: Message,
    pub peer: PeerAddr,
}

/// Mathematical value of a [`DataGram`].
pub struct DataGramView {
    pub message: MessageView,
    pub peer: PeerAddr,
}

impl View for DataGram {
    type V = DataGramView;

    open spec fn view(&self) -> DataGramView {
        DataGramView { message: self.message@, peer: self.peer }
    }
}

impl Clone for DataGram {
    fn clone(&self) -> (copy: DataGram)
        ensures
            copy@ == self@,
    {
        DataGram { message: self.message.clone(), peer: self.peer }
    }
}

/// The views of a sequence of datagrams, element by element.
pub open spec fn datagram_views(frames: Seq<DataGram>) -> Seq<DataGramView> {
    Seq::new(frames.len(), |i: int| frames[i]@)
}

} // verus!
