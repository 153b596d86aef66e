//! Sequential writer of ASDU packets: one ASDH, then groups of a DUI, IOAs
//! and information elements.

use vstd::prelude::*;
use vstd::bytes::*;

use crate::wire::{ASDH, DUI, IE, IOA, ie_bytes};

verus! {

/// The two bytes of an ASDH on the wire.
pub open spec fn asdh_bytes(a: ASDH) -> Seq<u8> {
    seq![a.ca, a.cot_pn]
}

/// The two bytes of a DUI on the wire.
pub open spec fn dui_bytes(d: DUI) -> Seq<u8> {
    seq![d.ti.raw, d.vsq.raw]
}

/// Appends the bytes of `b` to `v`.
pub fn append_bytes(v: &mut Vec<u8>, b: &[u8])
    ensures
        final(v)@ == old(v)@ + b@,
{
    let mut i: usize = 0;
    while i < b.len()
        invariant
            0 <= i <= b@.len(),
            v@ == old(v)@ + b@.subrange(0, i as int),
        decreases b@.len() - i,
    {
        v.push(b[i]);
        i = i + 1;
        proof {
            assert(v@ =~= old(v)@ + b@.subrange(0, i as int));
        }
    }
    proof {
        assert(b@.subrange(0, b@.len() as int) =~= b@);
    }
}

/// Writes the packed bytes of an information element to `v`.
pub fn write_ie(v: &mut Vec<u8>, ie: &IE)
    ensures
        final(v)@ == old(v)@ + ie_bytes(*ie),
{
    match ie {
        IE::Unknown(raw) => {
            append_bytes(v, raw.as_slice());
        },
        IE::TI25(_) => {
            proof {
                assert(old(v)@ + Seq::<u8>::empty() =~= old(v)@);
            }
        },
        IE::TI34(x) => {
            v.push(x.value);
            proof {
                assert(v@ =~= old(v)@ + seq![x.value]);
            }
        },
        IE::TI131(x) => {
            let b = u32_to_le_bytes(x.value);
            append_bytes(v, b.as_slice());
        },
        IE::TI161(x) => {
            let b = u32_to_le_bytes(x.value);
            append_bytes(v, b.as_slice());
            v.push(x.qds);
            proof {
                assert(v@ =~= old(v)@ + spec_u32_to_le_bytes(x.value).push(x.qds));
            }
        },
        IE::TI232(x) => {
            v.push(x.fw_state);
            v.push(x.fw_version.major);
            v.push(x.fw_version.minor);
            v.push(x.fw_version.patch);
            v.push(x.hw_version.vid);
            v.push(x.hw_version.pid);
            v.push(x.hw_version.rev);
            proof {
                assert(v@ =~= old(v)@ + ie_bytes(*ie));
            }
        },
        IE::TI233(x) => {
            let mut i: usize = 0;
            while i < 7
                invariant
                    0 <= i <= 7,
                    v@ == old(v)@ + x.b@.subrange(0, i as int),
                decreases 7 - i,
            {
                v.push(x.b[i]);
                i = i + 1;
                proof {
                    assert(v@ =~= old(v)@ + x.b@.subrange(0, i as int));
                }
            }
            proof {
                assert(x.b@.subrange(0, 7) =~= x.b@);
            }
        },
    }
}

/// Packet under construction; errors cannot occur, the buffer grows.
pub struct PtNetPacket {
    buffer: Vec<u8>,
}

impl PtNetPacket {
    /// The bytes written so far.
    pub closed spec fn view(&self) -> Seq<u8> {
        self.buffer@
    }

    /// Starts a packet with its ASDH.
    pub fn with_asdh(asdh: &ASDH) -> (r: PtNetPacket)
        ensures
            r@ == asdh_bytes(*asdh),
    {
        let mut r = PtNetPacket::new();
        r.buffer.push(asdh.ca);
        r.buffer.push(asdh.cot_pn);
        proof {
            assert(r.buffer@ =~= asdh_bytes(*asdh));
        }
        r
    }

    fn new() -> (r: PtNetPacket)
        ensures
            r@ == Seq::<u8>::empty(),
    {
        PtNetPacket { buffer: Vec::new() }
    }

    /// Opens a group with its DUI.
    pub fn begin_asdu(&mut self, dui: &DUI)
        ensures
            final(self)@ == old(self)@ + dui_bytes(*dui),
    {
        self.buffer.push(dui.ti.raw);
        self.buffer.push(dui.vsq.raw);
        proof {
            assert(self.buffer@ =~= old(self)@ + dui_bytes(*dui));
        }
    }

    pub fn add_ioa(&mut self, ioa: IOA)
        ensures
            final(self)@ == old(self)@.push(ioa),
    {
        self.buffer.push(ioa);
    }

    pub fn add_ie(&mut self, ie: &IE)
        ensures
            final(self)@ == old(self)@ + ie_bytes(*ie),
    {
        write_ie(&mut self.buffer, ie);
    }

    /// Closes a group; nothing is written.
    pub fn end_asdu(&mut self)
        ensures
            final(self)@ == old(self)@,
    {
    }

    /// The finished packet.
    pub fn to_buffer(self) -> (r: Vec<u8>)
        ensures
            r@ == self@,
    {
        self.buffer
    }
}

} // verus!
