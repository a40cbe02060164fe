//! The contract every packet type meets: a size computed without writing,
//! and an encoder that writes exactly that many bytes.
use crate::buffer::PacketBuffer;
use vstd::prelude::*;

verus! {

pub trait PacketEncode {
    /// The values for which the packet can be encoded.
    spec fn well_formed(&self) -> bool;

    /// The exact bytes of the packet on the wire.
    spec fn encoding(&self) -> Seq<u8>;

    /// Number of bytes `to_buf` writes.
    fn size(&self) -> (r: usize)
        requires
            self.well_formed(),
        ensures
            r == self.encoding().len(),
    ;

    /// Appends the packet's bytes.
    fn to_buf(&self, buf: &mut PacketBuffer)
        requires
            self.well_formed(),
        ensures
            final(buf)@ == old(buf)@ + self.encoding(),
    ;
}

/// Computes the size of `packet`, then encodes it into a fresh buffer; the
/// buffer ends up holding exactly as many bytes as the size announced.
pub fn encode_packet<P: PacketEncode>(packet: &P) -> (r: (usize, Vec<u8>))
    requires
        packet.well_formed(),
    ensures
        r.1@ == packet.encoding(),
        r.0 == r.1@.len(),
{
    let size = packet.size();
    let mut buf = PacketBuffer::new();
    packet.to_buf(&mut buf);
    assert(buf@ =~= packet.encoding());
    (size, buf.into_bytes())
}

} // verus!
