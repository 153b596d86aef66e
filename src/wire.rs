//! Wire structures of the telemetry protocol: application service data unit
//! header (ASDH), data unit identifier (DUI), link header, cause of
//! transmission, function codes and information elements.
#![allow(non_camel_case_types)]

use vstd::prelude::*;
use vstd::bytes::*;

use crate::image_header::{FWVersion, HWVersion};

verus! {

/// Information object address.
pub type IOA = u8;

/// Fixed 6-byte node identifier.
pub type NodeAddress = [u8; 6];

/// Cause of transmission.
#[derive(Clone, Copy, Debug, PartialEq, Eq, Structural)]
pub enum COT {
    CYCLIC,
    SPONT,
    INIT,
    REQ,
    ACT,
    ACT_CON,
    DEACT,
    TERM,
    INT,
    U_TI,
    U_COT,
    U_IOA,
}

pub const COT_CYCLIC: u8 = 1;
pub const COT_SPONT: u8 = 3;
pub const COT_INIT: u8 = 4;
pub const COT_REQ: u8 = 5;
pub const COT_ACT: u8 = 6;
pub const COT_ACT_CON: u8 = 7;
pub const COT_DEACT: u8 = 8;
pub const COT_TERM: u8 = 10;
pub const COT_INT: u8 = 20;
pub const COT_U_TI: u8 = 44;
pub const COT_U_COT: u8 = 45;
pub const COT_U_IOA: u8 = 47;

impl COT {
    /// The numeric code of the cause on the wire.
    pub open spec fn spec_value(self) -> u8 {
        match self {
            COT::CYCLIC => COT_CYCLIC,
            COT::SPONT => COT_SPONT,
            COT::INIT => COT_INIT,
            COT::REQ => COT_REQ,
            COT::ACT => COT_ACT,
            COT::ACT_CON => COT_ACT_CON,
            COT::DEACT => COT_DEACT,
            COT::TERM => COT_TERM,
            COT::INT => COT_INT,
            COT::U_TI => COT_U_TI,
            COT::U_COT => COT_U_COT,
            COT::U_IOA => COT_U_IOA,
        }
    }

    pub fn value(self) -> (r: u8)
        ensures
            r == self.spec_value(),
            r < 64,
    {
        match self {
            COT::CYCLIC => COT_CYCLIC,
            COT::SPONT => COT_SPONT,
            COT::INIT => COT_INIT,
            COT::REQ => COT_REQ,
            COT::ACT => COT_ACT,
            COT::ACT_CON => COT_ACT_CON,
            COT::DEACT => COT_DEACT,
            COT::TERM => COT_TERM,
            COT::INT => COT_INT,
            COT::U_TI => COT_U_TI,
            COT::U_COT => COT_U_COT,
            COT::U_IOA => COT_U_IOA,
        }
    }
}

/// Whether an ASDU with this cause carries no information element after
/// its address (the negative confirmations of an unknown type, cause or
/// address).
pub open spec fn cot_without_ie(cot: u8) -> bool {
    cot == COT_U_TI || cot == COT_U_COT || cot == COT_U_IOA
}

/// Application service data unit header: common address, and a byte whose
/// low six bits are the cause of transmission and whose bit 7 is P/N.
#[derive(Clone, Copy, Debug, PartialEq, Eq, Structural)]
pub struct ASDH {
    pub ca: u8,
    pub cot_pn: u8,
}

impl ASDH {
    pub open spec fn spec_cot(self) -> u8 {
        (self.cot_pn % 64) as u8
    }

    pub open spec fn spec_pn(self) -> bool {
        self.cot_pn >= 128
    }

    /// Builds a header from its common address, cause and P/N flag.
    pub fn with(ca: u8, cot: COT, pn: bool) -> (r: ASDH)
        ensures
            r.ca == ca,
            r.spec_cot() == cot.spec_value(),
            r.spec_pn() == pn,
            r.cot_pn == cot.spec_value() + if pn { 128u8 } else { 0u8 },
    {
        let c = cot.value();
        let cot_pn: u8 = if pn { c + 128 } else { c };
        ASDH { ca, cot_pn }
    }

    pub fn cot(&self) -> (r: u8)
        ensures
            r == self.spec_cot(),
    {
        self.cot_pn % 64
    }

    pub fn pn(&self) -> (r: bool)
        ensures
            r == self.spec_pn(),
    {
        self.cot_pn >= 128
    }
}

/// Type identifier: bits 0..4 are the type code, bits 5..7 the width in
/// bytes of the information element it selects.
#[derive(Clone, Copy, Debug, PartialEq, Eq, Structural)]
pub struct TI {
    pub raw: u8,
}

impl TI {
    pub open spec fn spec_size(self) -> u8 {
        (self.raw / 32) as u8
    }

    pub fn with(tc: u8) -> (r: TI)
        ensures
            r.raw == tc,
    {
        TI { raw: tc }
    }

    pub fn value(&self) -> (r: u8)
        ensures
            r == self.raw,
    {
        self.raw
    }

    /// Width in bytes of one information element of this type.
    pub fn size(&self) -> (r: u8)
        ensures
            r == self.spec_size(),
            r < 8,
    {
        self.raw / 32
    }

    pub fn tc(&self) -> (r: u8)
        ensures
            r == self.raw % 32,
    {
        self.raw % 32
    }
}

/// Variable structure qualifier: bits 0..3 are the number N of information
/// elements, bit 4 is the sequence flag SQ.
#[derive(Clone, Copy, Debug, PartialEq, Eq, Structural)]
pub struct VSQ {
    pub raw: u8,
}

impl VSQ {
    pub open spec fn spec_n(self) -> u8 {
        (self.raw % 16) as u8
    }

    pub open spec fn spec_sq(self) -> bool {
        (self.raw / 16) % 2 == 1
    }

    /// Builds a qualifier; as with the wire's 4-bit field, N is kept modulo 16.
    pub fn with(n: u8, sq: bool) -> (r: VSQ)
        ensures
            r.spec_n() == n % 16,
            r.spec_sq() == sq,
            r.raw == n % 16 + if sq { 16u8 } else { 0u8 },
    {
        let low: u8 = n % 16;
        let raw: u8 = if sq { low + 16 } else { low };
        VSQ { raw }
    }

    pub fn n(&self) -> (r: u8)
        ensures
            r == self.spec_n(),
    {
        self.raw % 16
    }

    pub fn sq(&self) -> (r: bool)
        ensures
            r == self.spec_sq(),
    {
        (self.raw / 16) % 2 == 1
    }
}

/// Data unit identifier: type identifier and structure qualifier.
#[derive(Clone, Copy, Debug, PartialEq, Eq, Structural)]
pub struct DUI {
    pub ti: TI,
    pub vsq: VSQ,
}

impl DUI {
    pub fn with(ti: &TI, vsq: &VSQ) -> (r: DUI)
        ensures
            r.ti == *ti,
            r.vsq == *vsq,
    {
        DUI { ti: *ti, vsq: *vsq }
    }

    pub fn with_direct(tc: u8, n: u8, sq: bool) -> (r: DUI)
        ensures
            r.ti.raw == tc,
            r.vsq.spec_n() == n % 16,
            r.vsq.spec_sq() == sq,
            r.vsq.raw == n % 16 + if sq { 16u8 } else { 0u8 },
    {
        DUI { ti: TI::with(tc), vsq: VSQ::with(n, sq) }
    }
}

/// Link header bit: direction.
pub const BIT_DIR: u8 = 0x80;
/// Link header bit: primary message.
pub const BIT_PRM: u8 = 0x40;
/// Link header bits 0..3: function code.
pub const BITS_FC: u8 = 0x0F;

pub const FC_PRM_LINK_TEST: u8 = 2;
pub const FC_PRM_SEND_CONFIRM: u8 = 3;
pub const FC_PRM_SEND_NOREPLY: u8 = 4;
pub const FC_SEC_ACK: u8 = 0;
pub const FC_SEC_NAK: u8 = 1;
pub const FC_SEC_LINK_OK: u8 = 11;

/// Link layer function code.
#[derive(Clone, Copy, Debug, PartialEq, Eq, Structural)]
pub enum FC {
    PrmLinkTest,
    PrmSendConfirm,
    PrmSendNoreply,
    SecAck,
    SecNak,
    SecLinkOk,
}

impl FC {
    pub open spec fn spec_value(self) -> u8 {
        match self {
            FC::PrmLinkTest => FC_PRM_LINK_TEST,
            FC::PrmSendConfirm => FC_PRM_SEND_CONFIRM,
            FC::PrmSendNoreply => FC_PRM_SEND_NOREPLY,
            FC::SecAck => FC_SEC_ACK,
            FC::SecNak => FC_SEC_NAK,
            FC::SecLinkOk => FC_SEC_LINK_OK,
        }
    }

    pub fn value(self) -> (r: u8)
        ensures
            r == self.spec_value(),
            r < 16,
    {
        match self {
            FC::PrmLinkTest => FC_PRM_LINK_TEST,
            FC::PrmSendConfirm => FC_PRM_SEND_CONFIRM,
            FC::PrmSendNoreply => FC_PRM_SEND_NOREPLY,
            FC::SecAck => FC_SEC_ACK,
            FC::SecNak => FC_SEC_NAK,
            FC::SecLinkOk => FC_SEC_LINK_OK,
        }
    }
}

/// The function code that the low four bits of a link header byte name.
pub open spec fn fc_of(bits: u8) -> Option<FC> {
    if bits == FC_PRM_LINK_TEST {
        Some(FC::PrmLinkTest)
    } else if bits == FC_PRM_SEND_CONFIRM {
        Some(FC::PrmSendConfirm)
    } else if bits == FC_PRM_SEND_NOREPLY {
        Some(FC::PrmSendNoreply)
    } else if bits == FC_SEC_ACK {
        Some(FC::SecAck)
    } else if bits == FC_SEC_NAK {
        Some(FC::SecNak)
    } else if bits == FC_SEC_LINK_OK {
        Some(FC::SecLinkOk)
    } else {
        None
    }
}

/// Link header: control byte C and the node address.
#[derive(Clone, Copy, Debug)]
pub struct Header {
    pub c: u8,
    pub address: NodeAddress,
}

impl Header {
    pub open spec fn spec_dir(self) -> bool {
        self.c >= 128
    }

    pub open spec fn spec_prm(self) -> bool {
        (self.c / 64) % 2 == 1
    }

    pub open spec fn spec_fc(self) -> Option<FC> {
        fc_of((self.c % 16) as u8)
    }

    pub fn dir(&self) -> (r: bool)
        ensures
            r == self.spec_dir(),
    {
        self.c >= 128
    }

    pub fn prm(&self) -> (r: bool)
        ensures
            r == self.spec_prm(),
    {
        (self.c / 64) % 2 == 1
    }

    pub fn fc(&self) -> (r: Option<FC>)
        ensures
            r == self.spec_fc(),
    {
        let bits: u8 = self.c % 16;
        if bits == FC_PRM_LINK_TEST {
            Some(FC::PrmLinkTest)
        } else if bits == FC_PRM_SEND_CONFIRM {
            Some(FC::PrmSendConfirm)
        } else if bits == FC_PRM_SEND_NOREPLY {
            Some(FC::PrmSendNoreply)
        } else if bits == FC_SEC_ACK {
            Some(FC::SecAck)
        } else if bits == FC_SEC_NAK {
            Some(FC::SecNak)
        } else if bits == FC_SEC_LINK_OK {
            Some(FC::SecLinkOk)
        } else {
            None
        }
    }

    /// The control byte of a primary message with the given function code.
    pub fn prm_control(fc: FC) -> (r: u8)
        ensures
            r == BIT_PRM + fc.spec_value(),
            (r / 64) % 2 == 1,
            fc_of((r % 16) as u8) == Some(fc),
            r < 128,
    {
        BIT_PRM + fc.value()
    }
}

/// Type codes of the information elements that this library decodes.
pub const TC_C_RD: u8 = 25;
pub const TC_TI34: u8 = 34;
pub const TC_M_ME_FP: u8 = 131;
pub const TC_TI161: u8 = 161;
pub const TC_TI232: u8 = 232;
pub const TC_TI233: u8 = 233;
pub const TC_C_FW_IU: u8 = 240;

/// Read command: carries no data.
#[derive(Clone, Copy, Debug, PartialEq, Eq, Structural, Default)]
pub struct TI25 {}

/// A one-byte value.
#[derive(Clone, Copy, Debug, PartialEq, Eq, Structural)]
pub struct TI34 {
    pub value: u8,
}

/// A floating-point value, held as its IEEE-754 bits.
#[derive(Clone, Copy, Debug, PartialEq, Eq, Structural)]
pub struct TI131 {
    pub value: u32,
}

/// A four-byte value with its quality descriptor.
#[derive(Clone, Copy, Debug, PartialEq, Eq, Structural)]
pub struct TI161 {
    pub value: u32,
    pub qds: u8,
}

/// Device status: firmware state, firmware and hardware versions.
#[derive(Clone, Copy, Debug, PartialEq, Eq, Structural)]
pub struct M_DEV_ST {
    pub fw_state: u8,
    pub fw_version: FWVersion,
    pub hw_version: HWVersion,
}

/// Device descriptor: an opaque 7-byte blob.
#[derive(Clone, Copy, Debug)]
pub struct M_DEV_DC {
    pub b: [u8; 7],
}

/// Information element, decoded by its type identifier.
#[derive(Clone, Debug, PartialEq)]
pub enum IE {
    /// An element whose type this library does not decode: its raw bytes.
    Unknown(Vec<u8>),
    TI25(TI25),
    TI34(TI34),
    TI131(TI131),
    TI161(TI161),
    TI232(M_DEV_ST),
    TI233(M_DEV_DC),
}

impl PartialEq for M_DEV_DC {
    fn eq(&self, o: &M_DEV_DC) -> (r: bool) {
        let mut i: usize = 0;
        while i < 7
            invariant
                0 <= i <= 7,
                forall|j: int| 0 <= j < i ==> self.b@[j] == o.b@[j],
            decreases 7 - i,
        {
            if self.b[i] != o.b[i] {
                return false;
            }
            i = i + 1;
        }
        proof {
            assert(self.b@ =~= o.b@);
        }
        true
    }
}

impl vstd::std_specs::cmp::PartialEqSpecImpl for M_DEV_DC {
    open spec fn obeys_eq_spec() -> bool {
        true
    }

    open spec fn eq_spec(&self, o: &M_DEV_DC) -> bool {
        self.b@ == o.b@
    }
}

impl PartialEq for Header {
    fn eq(&self, o: &Header) -> (r: bool) {
        if self.c != o.c {
            return false;
        }
        address_eq(&self.address, &o.address)
    }
}

impl vstd::std_specs::cmp::PartialEqSpecImpl for Header {
    open spec fn obeys_eq_spec() -> bool {
        true
    }

    open spec fn eq_spec(&self, o: &Header) -> bool {
        self.c == o.c && self.address@ == o.address@
    }
}

/// Compares two node addresses byte by byte.
pub fn address_eq(a: &NodeAddress, b: &NodeAddress) -> (r: bool)
    ensures
        r == (a@ == b@),
{
    let mut i: usize = 0;
    while i < 6
        invariant
            0 <= i <= 6,
            forall|j: int| 0 <= j < i ==> a@[j] == b@[j],
        decreases 6 - i,
    {
        if a[i] != b[i] {
            return false;
        }
        i = i + 1;
    }
    proof {
        assert(a@ =~= b@);
    }
    true
}

/// The bytes of a firmware version on the wire: major, minor, patch.
pub open spec fn fw_version_bytes(v: FWVersion) -> Seq<u8> {
    seq![v.major, v.minor, v.patch]
}

/// The bytes of a hardware version on the wire: vid, pid, rev.
pub open spec fn hw_version_bytes(v: HWVersion) -> Seq<u8> {
    seq![v.vid, v.pid, v.rev]
}

/// The packed little-endian bytes of an information element.
pub open spec fn ie_bytes(ie: IE) -> Seq<u8> {
    match ie {
        IE::Unknown(v) => v@,
        IE::TI25(_) => Seq::empty(),
        IE::TI34(x) => seq![x.value],
        IE::TI131(x) => spec_u32_to_le_bytes(x.value),
        IE::TI161(x) => spec_u32_to_le_bytes(x.value).push(x.qds),
        IE::TI232(x) => seq![x.fw_state] + fw_version_bytes(x.fw_version) + hw_version_bytes(
            x.hw_version,
        ),
        IE::TI233(x) => x.b@,
    }
}

/// Whether `ie` is the variant that the type identifier `ti` selects.
pub open spec fn ie_kind_matches(ti: u8, ie: IE) -> bool {
    match ie {
        IE::TI25(_) => ti == TC_C_RD,
        IE::TI34(_) => ti == TC_TI34,
        IE::TI131(_) => ti == TC_M_ME_FP,
        IE::TI161(_) => ti == TC_TI161,
        IE::TI232(_) => ti == TC_TI232,
        IE::TI233(_) => ti == TC_TI233,
        IE::Unknown(_) => !is_decoded_ti(ti),
    }
}

/// The type identifiers whose elements this library decodes into a variant
/// of their own.
pub open spec fn is_decoded_ti(ti: u8) -> bool {
    ti == TC_C_RD || ti == TC_TI34 || ti == TC_M_ME_FP || ti == TC_TI161 || ti
        == TC_TI232 || ti == TC_TI233
}

/// Width in bytes of an element of type identifier `ti`.
pub open spec fn ie_size(ti: u8) -> nat {
    (ti / 32) as nat
}

/// Errors of decoding an information element.
#[derive(Clone, Copy, Debug, PartialEq, Eq, Structural)]
pub enum IEParseError {
    BufferTooShort,
}

/// Copies a byte slice into a new vector.
pub fn copy_bytes(b: &[u8]) -> (r: Vec<u8>)
    ensures
        r@ == b@,
{
    let mut v: Vec<u8> = Vec::new();
    let mut i: usize = 0;
    while i < b.len()
        invariant
            0 <= i <= b@.len(),
            v@ == b@.subrange(0, i as int),
        decreases b@.len() - i,
    {
        v.push(b[i]);
        i = i + 1;
        proof {
            assert(v@ =~= b@.subrange(0, i as int));
        }
    }
    proof {
        assert(v@ =~= b@);
    }
    v
}

impl IE {
    /// Decodes the element of type identifier `ti`: a decoded type from the
    /// first `size(ti)` bytes of `buffer`; any other type as `Unknown` with
    /// all of `buffer`.
    pub fn try_from(ti: u8, buffer: &[u8]) -> (r: Result<IE, IEParseError>)
        ensures
            !is_decoded_ti(ti) ==> r is Ok && r->Ok_0 is Unknown && r->Ok_0->Unknown_0@ == buffer@,
            is_decoded_ti(ti) && buffer@.len() < ie_size(ti) ==> r == Err::<IE, IEParseError>(
                IEParseError::BufferTooShort,
            ),
            is_decoded_ti(ti) && buffer@.len() >= ie_size(ti) ==> r.is_ok() && ie_kind_matches(
                ti,
                r->Ok_0,
            ) && ie_bytes(r->Ok_0) == buffer@.subrange(0, ie_size(ti) as int),
    {
        if !(ti == TC_C_RD || ti == TC_TI34 || ti == TC_M_ME_FP || ti == TC_TI161 || ti == TC_TI232
            || ti == TC_TI233) {
            return Ok(IE::Unknown(copy_bytes(buffer)));
        }
        let size: usize = (ti / 32) as usize;
        if buffer.len() < size {
            return Err(IEParseError::BufferTooShort);
        }
        proof {
            lemma_auto_spec_u32_to_from_le_bytes();
        }
        if ti == TC_C_RD {
            Ok(IE::TI25(TI25 {  }))
        } else if ti == TC_TI34 {
            proof {
                assert(seq![buffer@[0]] =~= buffer@.subrange(0, 1));
            }
            Ok(IE::TI34(TI34 { value: buffer[0] }))
        } else if ti == TC_M_ME_FP {
            let value = u32_from_le_bytes(vstd::slice::slice_subrange(buffer, 0, 4));
            proof {
                
            }
            Ok(IE::TI131(TI131 { value }))
        } else if ti == TC_TI161 {
            let value = u32_from_le_bytes(vstd::slice::slice_subrange(buffer, 0, 4));
            proof {
                
                assert(spec_u32_to_le_bytes(value).push(buffer@[4]) =~= buffer@.subrange(0, 5));
            }
            Ok(IE::TI161(TI161 { value, qds: buffer[4] }))
        } else if ti == TC_TI232 {
            let st = M_DEV_ST {
                fw_state: buffer[0],
                fw_version: FWVersion { major: buffer[1], minor: buffer[2], patch: buffer[3] },
                hw_version: HWVersion { vid: buffer[4], pid: buffer[5], rev: buffer[6] },
            };
            proof {
                assert(ie_bytes(IE::TI232(st)) =~= buffer@.subrange(0, 7));
            }
            Ok(IE::TI232(st))
        } else {
            let dc = M_DEV_DC {
                b: [buffer[0], buffer[1], buffer[2], buffer[3], buffer[4], buffer[5], buffer[6]],
            };
            proof {
                assert(dc.b@ =~= buffer@.subrange(0, 7));
            }
            Ok(IE::TI233(dc))
        }
    }
}

} // verus!
