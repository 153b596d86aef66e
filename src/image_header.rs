//! Firmware image container: a header with magics and checksums, and the
//! versions that it names.

use vstd::prelude::*;
use vstd::string::StringSliceAdditionalSpecFns;
use vstd::bytes::*;

use crate::packet::append_bytes;

verus! {

/// Hardware version: vendor id, product id, revision.
#[derive(Clone, Copy, Debug, PartialEq, Eq, Structural, Default)]
pub struct HWVersion {
    pub vid: u8,
    pub pid: u8,
    pub rev: u8,
}

/// Firmware version: major, minor, patch.
#[derive(Clone, Copy, Debug, PartialEq, Eq, Structural, Default)]
pub struct FWVersion {
    pub major: u8,
    pub minor: u8,
    pub patch: u8,
}

/// Errors of reading a version from text.
#[derive(Clone, Copy, Debug, PartialEq, Eq, Structural)]
pub enum ParseError {
    /// Fewer than three parts.
    NotEnoughTokens,
    /// More than three parts.
    TooMuchTokens,
    /// A part is not a number of the radix, or does not fit a byte.
    ParseIntError,
}

/// The parts of `b` between the separator bytes `sep`; `b` without a
/// separator is one part.
pub open spec fn split_spec(b: Seq<u8>, sep: u8) -> Seq<Seq<u8>>
    decreases b.len(),
{
    if b.len() == 0 {
        seq![Seq::<u8>::empty()]
    } else {
        let s = split_spec(b.drop_last(), sep);
        if b.last() == sep {
            s.push(Seq::<u8>::empty())
        } else {
            s.update(s.len() - 1, s.last().push(b.last()))
        }
    }
}

pub proof fn lemma_split_nonempty(b: Seq<u8>, sep: u8)
    ensures
        split_spec(b, sep).len() >= 1,
    decreases b.len(),
{
    if b.len() > 0 {
        lemma_split_nonempty(b.drop_last(), sep);
    }
}

/// The value of an ASCII digit in `radix` (10 or 16, either case), if it is one.
pub open spec fn digit_value(c: u8, radix: u32) -> Option<u32> {
    if 48 <= c <= 57 && (c - 48) < radix {
        Some((c - 48) as u32)
    } else if radix == 16 && 97 <= c <= 102 {
        Some((c - 87) as u32)
    } else if radix == 16 && 65 <= c <= 70 {
        Some((c - 55) as u32)
    } else {
        None
    }
}

/// Whether every byte of `d` is a digit of `radix`.
pub open spec fn all_digits(d: Seq<u8>, radix: u32) -> bool {
    forall|i: int| 0 <= i < d.len() ==> (#[trigger] digit_value(d[i], radix)) is Some
}

/// The number that the digits `d` write in `radix`.
pub open spec fn digits_value(d: Seq<u8>, radix: u32) -> nat
    decreases d.len(),
{
    if d.len() == 0 {
        0
    } else {
        digits_value(d.drop_last(), radix) * (radix as nat) + digit_value(d.last(), radix)->Some_0 as nat
    }
}

/// The unsigned byte that `t` writes in `radix`: an optional `+`, then one
/// or more digits, of a value below 256.
pub open spec fn parse_u8_spec(t: Seq<u8>, radix: u32) -> Option<u8> {
    let d = if t.len() > 0 && t[0] == 43 { t.drop_first() } else { t };
    if d.len() > 0 && all_digits(d, radix) && digits_value(d, radix) < 256 {
        Some(digits_value(d, radix) as u8)
    } else {
        None
    }
}

/// A prefix of digits never writes a larger number than the whole.
proof fn lemma_digits_monotone(d: Seq<u8>, i: int, radix: u32)
    requires
        0 <= i <= d.len(),
        radix >= 1,
    ensures
        digits_value(d.subrange(0, i), radix) <= digits_value(d, radix),
    decreases d.len() - i,
{
    if i < d.len() {
        lemma_digits_monotone(d, i + 1, radix);
        let a = d.subrange(0, i + 1);
        assert(a.drop_last() =~= d.subrange(0, i));
        let x = digits_value(d.subrange(0, i), radix);
        assert(x * (radix as nat) >= x) by (nonlinear_arith)
            requires
                radix >= 1,
        ;
    } else {
        assert(d.subrange(0, i) =~= d);
    }
}

/// Reads an unsigned byte written in `radix` (10 or 16).
pub fn parse_u8(t: &[u8], radix: u32) -> (r: Option<u8>)
    requires
        radix == 10 || radix == 16,
    ensures
        r == parse_u8_spec(t@, radix),
{
    let mut start: usize = 0;
    if t.len() > 0 && t[0] == 43 {
        start = 1;
    }
    let ghost d = if t@.len() > 0 && t@[0] == 43 { t@.drop_first() } else { t@ };
    proof {
        assert(d =~= t@.subrange(start as int, t@.len() as int));
    }
    if start == t.len() {
        return None;
    }
    let mut acc: u32 = 0;
    let mut i: usize = start;
    while i < t.len()
        invariant
            start <= i <= t@.len(),
            d == t@.subrange(start as int, t@.len() as int),
            d == (if t@.len() > 0 && t@[0] == 43 { t@.drop_first() } else { t@ }),
            start < t@.len(),
            radix == 10 || radix == 16,
            all_digits(d.subrange(0, i - start), radix),
            acc == digits_value(d.subrange(0, i - start), radix),
            acc < 256,
        decreases t@.len() - i,
    {
        let c = t[i];
        let dv: u32;
        if 48 <= c && c <= 57 && ((c - 48) as u32) < radix {
            dv = (c - 48) as u32;
        } else if radix == 16 && 97 <= c && c <= 102 {
            dv = (c - 87) as u32;
        } else if radix == 16 && 65 <= c && c <= 70 {
            dv = (c - 55) as u32;
        } else {
            proof {
                assert(d[i - start] == c);
                assert(digit_value(d[i - start], radix) is None);
                assert(!all_digits(d, radix));
                let dd = if t@.len() > 0 && t@[0] == 43 { t@.drop_first() } else { t@ };
                assert(dd == d);
                assert(parse_u8_spec(t@, radix) is None);
            }
            return None;
        }
        proof {
            let a = d.subrange(0, i - start + 1);
            assert(a.drop_last() =~= d.subrange(0, i - start));
            assert(a.last() == c);
            assert(digit_value(c, radix) == Some(dv));
            assert(dv < 16);
            assert(acc * radix <= 255 * 16) by (nonlinear_arith)
                requires
                    acc < 256,
                    radix <= 16,
            ;
        }
        let next: u32 = acc * radix + dv;
        proof {
            assert(digits_value(d.subrange(0, i - start + 1), radix) == next);
        }
        if next >= 256 {
            proof {
                lemma_digits_monotone(d, i - start + 1, radix);
                let dd = if t@.len() > 0 && t@[0] == 43 { t@.drop_first() } else { t@ };
                assert(dd == d);
            }
            return None;
        }
        acc = next;
        i = i + 1;
        proof {
            assert forall|j: int| 0 <= j < i - start implies (#[trigger] digit_value(
                d.subrange(0, i - start)[j],
                radix,
            )) is Some by {
                if j < i - start - 1 {
                    assert(d.subrange(0, i - start)[j] == d.subrange(0, i - start - 1)[j]);
                }
            }
        }
    }
    proof {
        assert(d.subrange(0, t@.len() - start) =~= d);
    }
    Some(acc as u8)
}

/// Splits `b` at each separator byte.
pub fn split_bytes(b: &[u8], sep: u8) -> (r: Vec<Vec<u8>>)
    ensures
        r@.len() == split_spec(b@, sep).len(),
        forall|i: int| 0 <= i < r@.len() ==> (#[trigger] r@[i])@ == split_spec(b@, sep)[i],
{
    let mut parts: Vec<Vec<u8>> = Vec::new();
    let mut cur: Vec<u8> = Vec::new();
    let mut i: usize = 0;
    while i < b.len()
        invariant
            0 <= i <= b@.len(),
            parts@.len() + 1 == split_spec(b@.subrange(0, i as int), sep).len(),
            forall|k: int|
                0 <= k < parts@.len() ==> (#[trigger] parts@[k])@ == split_spec(
                    b@.subrange(0, i as int),
                    sep,
                )[k],
            cur@ == split_spec(b@.subrange(0, i as int), sep).last(),
        decreases b@.len() - i,
    {
        let ghost pre = b@.subrange(0, i as int);
        proof {
            let nxt = b@.subrange(0, i + 1);
            assert(nxt.drop_last() =~= pre);
            lemma_split_nonempty(pre, sep);
        }
        if b[i] == sep {
            parts.push(cur);
            cur = Vec::new();
        } else {
            cur.push(b[i]);
        }
        i = i + 1;
    }
    parts.push(cur);
    proof {
        assert(b@.subrange(0, b@.len() as int) =~= b@);
    }
    parts
}

/// The three bytes that `b` writes as three parts separated by `sep`, each
/// in `radix`; the parts are read in order, and the first failure decides.
pub open spec fn parse_triple_from(parts: Seq<Seq<u8>>, radix: u32, i: int, acc: Seq<u8>) -> Result<Seq<u8>, ParseError>
    decreases parts.len() - i,
{
    if i >= parts.len() {
        if i == 3 { Ok(acc) } else { Err(ParseError::NotEnoughTokens) }
    } else if i >= 3 {
        Err(ParseError::TooMuchTokens)
    } else {
        match parse_u8_spec(parts[i], radix) {
            Some(x) => parse_triple_from(parts, radix, i + 1, acc.push(x)),
            None => Err(ParseError::ParseIntError),
        }
    }
}

pub open spec fn parse_triple_spec(b: Seq<u8>, sep: u8, radix: u32) -> Result<Seq<u8>, ParseError> {
    parse_triple_from(split_spec(b, sep), radix, 0, Seq::empty())
}

/// Reads three bytes written as three parts separated by `sep`.
pub fn parse_triple(b: &[u8], sep: u8, radix: u32) -> (r: Result<(u8, u8, u8), ParseError>)
    requires
        radix == 10 || radix == 16,
    ensures
        match parse_triple_spec(b@, sep, radix) {
            Ok(v) => r is Ok && v.len() == 3 && r->Ok_0 == (v[0], v[1], v[2]),
            Err(e) => r == Err::<(u8, u8, u8), ParseError>(e),
        },
{
    let parts = split_bytes(b, sep);
    let ghost ps = split_spec(b@, sep);
    proof {
        assert(parse_triple_spec(b@, sep, radix) == parse_triple_from(ps, radix, 0, Seq::empty()));
    }
    let mut vals: Vec<u8> = Vec::new();
    let mut i: usize = 0;
    while i < parts.len()
        invariant
            0 <= i <= parts@.len(),
            i <= 3,
            parts@.len() == ps.len(),
            forall|k: int| 0 <= k < parts@.len() ==> (#[trigger] parts@[k])@ == ps[k],
            vals@.len() == i,
            radix == 10 || radix == 16,
            ps == split_spec(b@, sep),
            parse_triple_from(ps, radix, i as int, vals@) == parse_triple_spec(b@, sep, radix),
        decreases parts@.len() - i,
    {
        if i >= 3 {
            proof {
                assert(parse_triple_from(ps, radix, i as int, vals@) == Err::<Seq<u8>, ParseError>(
                    ParseError::TooMuchTokens,
                ));
            }
            return Err(ParseError::TooMuchTokens);
        }
        match parse_u8(parts[i].as_slice(), radix) {
            Some(x) => {
                vals.push(x);
            },
            None => {
                proof {
                    assert(parse_u8_spec(ps[i as int], radix) is None);
                }
                return Err(ParseError::ParseIntError);
            },
        }
        i = i + 1;
    }
    if i == 3 {
        Ok((vals[0], vals[1], vals[2]))
    } else {
        Err(ParseError::NotEnoughTokens)
    }
}

impl HWVersion {
    /// Reads `vv:pp:rr`, three hexadecimal bytes.
    pub fn from_str(s: &str) -> (r: Result<HWVersion, ParseError>)
        ensures
            match parse_triple_spec(s.spec_bytes(), 58, 16) {
                Ok(v) => r is Ok && r->Ok_0 == (HWVersion { vid: v[0], pid: v[1], rev: v[2] }),
                Err(e) => r == Err::<HWVersion, ParseError>(e),
            },
    {
        match parse_triple(s.as_bytes(), 58, 16) {
            Ok((vid, pid, rev)) => Ok(HWVersion { vid, pid, rev }),
            Err(e) => Err(e),
        }
    }
}

impl FWVersion {
    /// Reads `M.m.p`, three decimal bytes.
    pub fn from_str(s: &str) -> (r: Result<FWVersion, ParseError>)
        ensures
            match parse_triple_spec(s.spec_bytes(), 46, 10) {
                Ok(v) => r is Ok && r->Ok_0 == (FWVersion { major: v[0], minor: v[1], patch: v[2] }),
                Err(e) => r == Err::<FWVersion, ParseError>(e),
            },
    {
        match parse_triple(s.as_bytes(), 46, 10) {
            Ok((major, minor, patch)) => Ok(FWVersion { major, minor, patch }),
            Err(e) => Err(e),
        }
    }

    /// Lexicographic order on (major, minor, patch).
    pub open spec fn spec_lt(self, o: FWVersion) -> bool {
        self.major < o.major || (self.major == o.major && (self.minor < o.minor || (self.minor
            == o.minor && self.patch < o.patch)))
    }

    pub fn lt(&self, o: &FWVersion) -> (r: bool)
        ensures
            r == self.spec_lt(*o),
    {
        self.major < o.major || (self.major == o.major && (self.minor < o.minor || (self.minor
            == o.minor && self.patch < o.patch)))
    }
}

pub const MAGIC1: u32 = 0xFEEDBEEF;
pub const MAGIC2: u32 = 0xDEADBEEF;
/// Bytes of a header.
pub const HEADER_LEN: usize = 116;
/// Bytes of a container: magic1, header, header CRC, magic2.
pub const CONTAINER_LEN: usize = 128;

/// CRC-32/CKSUM of a byte sequence.
pub uninterp spec fn crc32_cksum(b: Seq<u8>) -> u32;

/// Relies on `crc::Crc::<u32>::checksum` with the `crc::CRC_32_CKSUM`
/// algorithm: the checksum is a function of the bytes alone.
#[verifier::external_body]
pub fn crc(buf: &[u8]) -> (r: u32)
    ensures
        r == crc32_cksum(buf@),
{
    crc::Crc::<u32>::new(&crc::CRC_32_CKSUM).checksum(buf)
}

/// Fields of a version-0 header.
#[derive(Clone, Copy, Debug, PartialEq, Eq, Structural, Default)]
pub struct HeaderFields0 {
    pub hw_version: HWVersion,
    pub fw_version: FWVersion,
    pub payload_size: u32,
    pub payload_crc: u32,
}

/// Fields of a header: its version, then the version-0 fields.
#[derive(Clone, Copy, Debug, PartialEq, Eq, Structural, Default)]
pub struct HeaderFields {
    /// header version
    pub version: u8,
    pub v0: HeaderFields0,
}

/// The fields that the 116 bytes of a header hold, packed little-endian.
pub open spec fn fields_of(raw: Seq<u8>) -> HeaderFields {
    HeaderFields {
        version: raw[0],
        v0: HeaderFields0 {
            hw_version: HWVersion { vid: raw[1], pid: raw[2], rev: raw[3] },
            fw_version: FWVersion { major: raw[4], minor: raw[5], patch: raw[6] },
            payload_size: spec_u32_from_le_bytes(raw.subrange(7, 11)),
            payload_crc: spec_u32_from_le_bytes(raw.subrange(11, 15)),
        },
    }
}

/// Header of a firmware image: 116 raw bytes.
#[derive(Clone, Debug)]
pub struct Header {
    pub raw: Vec<u8>,
}

impl Header {
    pub open spec fn view(&self) -> Seq<u8> {
        self.raw@
    }

    pub open spec fn wf(&self) -> bool {
        self.raw@.len() == HEADER_LEN
    }

    /// A header of zero bytes.
    pub fn default() -> (r: Header)
        ensures
            r.wf(),
            r@ == Seq::new(HEADER_LEN as nat, |i: int| 0u8),
    {
        let mut raw: Vec<u8> = Vec::new();
        let mut i: usize = 0;
        while i < HEADER_LEN
            invariant
                0 <= i <= HEADER_LEN,
                raw@ == Seq::new(i as nat, |k: int| 0u8),
            decreases HEADER_LEN - i,
        {
            raw.push(0);
            i = i + 1;
            proof {
                assert(raw@ =~= Seq::new(i as nat, |k: int| 0u8));
            }
        }
        Header { raw }
    }

    /// A header that holds `f`, zero after the fields.
    pub fn from_fields(f: &HeaderFields) -> (r: Header)
        ensures
            r.wf(),
            fields_of(r@) == *f,
            forall|i: int| 15 <= i < HEADER_LEN ==> r@[i] == 0,
    {
        let mut raw: Vec<u8> = Vec::new();
        raw.push(f.version);
        raw.push(f.v0.hw_version.vid);
        raw.push(f.v0.hw_version.pid);
        raw.push(f.v0.hw_version.rev);
        raw.push(f.v0.fw_version.major);
        raw.push(f.v0.fw_version.minor);
        raw.push(f.v0.fw_version.patch);
        let size = u32_to_le_bytes(f.v0.payload_size);
        append_bytes(&mut raw, size.as_slice());
        let pcrc = u32_to_le_bytes(f.v0.payload_crc);
        append_bytes(&mut raw, pcrc.as_slice());
        let ghost head = raw@;
        while raw.len() < HEADER_LEN
            invariant
                15 <= raw@.len() <= HEADER_LEN,
                raw@.subrange(0, 15) == head,
                head.len() == 15,
                forall|i: int| 15 <= i < raw@.len() ==> raw@[i] == 0,
            decreases HEADER_LEN - raw@.len(),
        {
            let ghost before = raw@;
            raw.push(0);
            proof {
                assert(raw@.subrange(0, 15) =~= before.subrange(0, 15));
            }
        }
        proof {
            lemma_auto_spec_u32_to_from_le_bytes();
            assert(raw@.subrange(7, 11) =~= head.subrange(7, 11));
            assert(raw@.subrange(11, 15) =~= head.subrange(11, 15));
            assert(head.subrange(7, 11) =~= spec_u32_to_le_bytes(f.v0.payload_size));
            assert(head.subrange(11, 15) =~= spec_u32_to_le_bytes(f.v0.payload_crc));
            assert(raw@[0] == head[0]);
            assert(raw@[1] == head[1]);
            assert(raw@[2] == head[2]);
            assert(raw@[3] == head[3]);
            assert(raw@[4] == head[4]);
            assert(raw@[5] == head[5]);
            assert(raw@[6] == head[6]);
        }
        Header { raw }
    }

    /// The fields that the header holds.
    pub fn fields(&self) -> (r: HeaderFields)
        requires
            self.wf(),
        ensures
            r == fields_of(self@),
    {
        let raw = self.raw.as_slice();
        HeaderFields {
            version: raw[0],
            v0: HeaderFields0 {
                hw_version: HWVersion { vid: raw[1], pid: raw[2], rev: raw[3] },
                fw_version: FWVersion { major: raw[4], minor: raw[5], patch: raw[6] },
                payload_size: u32_from_le_bytes(vstd::slice::slice_subrange(raw, 7, 11)),
                payload_crc: u32_from_le_bytes(vstd::slice::slice_subrange(raw, 11, 15)),
            },
        }
    }
}

/// Errors of checking a firmware container.
#[derive(Clone, Copy, Debug, PartialEq, Eq, Structural)]
pub enum VerifyError {
    HeaderMagicNotPresent,
    HeaderCRCInvalid,
    PayloadSizeInvalid,
    PayloadCRCInvalid,
}

/// Firmware container: magic1 | header | header CRC | magic2.
#[derive(Clone, Debug)]
pub struct Container {
    pub magic1: u32,
    pub header: Header,
    pub header_crc: u32,
    pub magic2: u32,
}

/// The outcome of checking the parts of a container and, where one is
/// given, its payload.
pub open spec fn verify_parts(
    magic1: u32,
    header: Seq<u8>,
    header_crc: u32,
    magic2: u32,
    payload: Option<Seq<u8>>,
) -> Result<(), VerifyError> {
    if magic1 != MAGIC1 || magic2 != MAGIC2 {
        Err(VerifyError::HeaderMagicNotPresent)
    } else if crc32_cksum(header) != header_crc {
        Err(VerifyError::HeaderCRCInvalid)
    } else {
        match payload {
            None => Ok(()),
            Some(p) => {
                let v0 = fields_of(header).v0;
                if v0.payload_size as int != p.len() {
                    Err(VerifyError::PayloadSizeInvalid)
                } else if crc32_cksum(p) != v0.payload_crc {
                    Err(VerifyError::PayloadCRCInvalid)
                } else {
                    Ok(())
                }
            },
        }
    }
}

/// The outcome of checking a container and, where one is given, its payload.
pub open spec fn verify_spec(c: Container, payload: Option<Seq<u8>>) -> Result<(), VerifyError> {
    verify_parts(c.magic1, c.header@, c.header_crc, c.magic2, payload)
}

/// The outcome of checking an image file: a container at offset 0, the
/// payload after it.
pub open spec fn verify_image(b: Seq<u8>) -> Result<(), VerifyError> {
    if b.len() < CONTAINER_LEN {
        Err(VerifyError::HeaderMagicNotPresent)
    } else {
        verify_parts(
            spec_u32_from_le_bytes(b.subrange(0, 4)),
            b.subrange(4, 120),
            spec_u32_from_le_bytes(b.subrange(120, 124)),
            spec_u32_from_le_bytes(b.subrange(124, 128)),
            Some(b.subrange(CONTAINER_LEN as int, b.len() as int)),
        )
    }
}

/// The 128 bytes of a container on disk.
pub open spec fn container_bytes(c: Container) -> Seq<u8> {
    spec_u32_to_le_bytes(c.magic1) + c.header@ + spec_u32_to_le_bytes(c.header_crc)
        + spec_u32_to_le_bytes(c.magic2)
}

pub open spec fn opt_view(p: Option<&[u8]>) -> Option<Seq<u8>> {
    match p {
        Some(s) => Some(s@),
        None => None,
    }
}

impl Container {
    pub open spec fn wf(&self) -> bool {
        self.header.wf()
    }

    /// A container with both magics, a zero header and a zero CRC.
    pub fn default() -> (r: Container)
        ensures
            r.wf(),
            r.magic1 == MAGIC1,
            r.magic2 == MAGIC2,
            r.header_crc == 0,
            r.header@ == Seq::new(HEADER_LEN as nat, |i: int| 0u8),
    {
        Container { magic1: MAGIC1, header: Header::default(), header_crc: 0, magic2: MAGIC2 }
    }

    /// Checks the magics and the header CRC and, where a payload is given,
    /// its size and CRC.
    pub fn verify(&self, payload: Option<&[u8]>) -> (r: Result<(), VerifyError>)
        requires
            self.wf(),
        ensures
            r == verify_spec(*self, opt_view(payload)),
    {
        if self.magic1 != MAGIC1 || self.magic2 != MAGIC2 {
            return Err(VerifyError::HeaderMagicNotPresent);
        }
        if crc(self.header.raw.as_slice()) != self.header_crc {
            return Err(VerifyError::HeaderCRCInvalid);
        }
        match payload {
            None => Ok(()),
            Some(pay) => {
                let v0 = self.header.fields().v0;
                if v0.payload_size as usize != pay.len() {
                    return Err(VerifyError::PayloadSizeInvalid);
                }
                if crc(pay) != v0.payload_crc {
                    return Err(VerifyError::PayloadCRCInvalid);
                }
                Ok(())
            },
        }
    }

    /// The container's bytes on disk.
    pub fn to_bytes(&self) -> (r: Vec<u8>)
        requires
            self.wf(),
        ensures
            r@ == container_bytes(*self),
            r@.len() == CONTAINER_LEN,
    {
        let mut out = u32_to_le_bytes(self.magic1);
        append_bytes(&mut out, self.header.raw.as_slice());
        let c = u32_to_le_bytes(self.header_crc);
        append_bytes(&mut out, c.as_slice());
        let m = u32_to_le_bytes(self.magic2);
        append_bytes(&mut out, m.as_slice());
        out
    }

    /// Reads the container at the start of `buf` and checks it together
    /// with the payload that follows it; on success also gives where the
    /// payload starts.
    pub fn parse_from(buf: &[u8]) -> (r: Result<(Container, usize), VerifyError>)
        ensures
            r is Ok <==> verify_image(buf@) is Ok,
            r is Err ==> r->Err_0 == verify_image(buf@)->Err_0,
            r is Ok ==> r->Ok_0.1 == CONTAINER_LEN && r->Ok_0.0.wf() && container_bytes(r->Ok_0.0)
                == buf@.subrange(0, CONTAINER_LEN as int),
    {
        if buf.len() < CONTAINER_LEN {
            return Err(VerifyError::HeaderMagicNotPresent);
        }
        let magic1 = u32_from_le_bytes(vstd::slice::slice_subrange(buf, 0, 4));
        let raw = vstd::slice::slice_to_vec(vstd::slice::slice_subrange(buf, 4, 120));
        let header_crc = u32_from_le_bytes(vstd::slice::slice_subrange(buf, 120, 124));
        let magic2 = u32_from_le_bytes(vstd::slice::slice_subrange(buf, 124, 128));
        let c = Container { magic1, header: Header { raw }, header_crc, magic2 };
        let payload = vstd::slice::slice_subrange(buf, CONTAINER_LEN, buf.len());
        proof {
            lemma_auto_spec_u32_to_from_le_bytes();
            assert(container_bytes(c) =~= buf@.subrange(0, CONTAINER_LEN as int));
        }
        match c.verify(Some(payload)) {
            Ok(()) => Ok((c, CONTAINER_LEN)),
            Err(e) => Err(e),
        }
    }

    /// The container for `payload` with the given versions: a version-0
    /// header that records the payload's size and CRC, and the header's CRC.
    pub fn for_payload(hw: HWVersion, fw: FWVersion, payload: &[u8]) -> (r: Container)
        requires
            payload@.len() <= u32::MAX,
        ensures
            r.wf(),
            fields_of(r.header@) == (HeaderFields {
                version: 0,
                v0: HeaderFields0 {
                    hw_version: hw,
                    fw_version: fw,
                    payload_size: payload@.len() as u32,
                    payload_crc: crc32_cksum(payload@),
                },
            }),
            verify_spec(r, Some(payload@)) == Ok::<(), VerifyError>(()),
    {
        let f = HeaderFields {
            version: 0,
            v0: HeaderFields0 {
                hw_version: hw,
                fw_version: fw,
                payload_size: payload.len() as u32,
                payload_crc: crc(payload),
            },
        };
        let header = Header::from_fields(&f);
        let header_crc = crc(header.raw.as_slice());
        Container { magic1: MAGIC1, header, header_crc, magic2: MAGIC2 }
    }
}

} // verus!
