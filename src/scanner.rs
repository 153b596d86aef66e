//! Streaming scanner of ASDU packets: a pull iterator of tokens (ASDH, DUI,
//! IOA, IE) and, over it, an iterator of assembled information objects.

use vstd::prelude::*;

use crate::wire::{ASDH, DUI, IE, IOA, TI, VSQ, cot_without_ie, ie_bytes, ie_kind_matches, ie_size};

verus! {

/// What the scanner expects next.
#[derive(Clone, Copy, Debug, PartialEq, Eq, Structural)]
pub enum State {
    ScanASDH,
    ScanDUI,
    ScanIOA,
    ScanIE,
}

/// A token of a packet.
#[derive(Clone, Debug, PartialEq)]
pub enum Token {
    ASDH(ASDH),
    DUI(DUI),
    IOA(IOA),
    IE(IE),
}

/// Scanning errors; `EOF` is the successful end of a packet.
#[derive(Clone, Copy, Debug, PartialEq)]
pub enum Error {
    /// End of the buffer after a complete group: the packet is parsed.
    EOF,
    /// End of the buffer in the middle of a group.
    ShortRead,
    InvalidPacket(&'static str),
}

/// A token in the model: an element is its type identifier and its bytes.
pub enum TokenV {
    ASDH(ASDH),
    DUI(DUI),
    IOA(u8),
    IE(u8, Seq<u8>),
}

/// What one step of the scanner yields, in the model.
pub enum StepV {
    Token(TokenV),
    Eof,
    Short,
    Invalid,
}

/// The scanner's state in the model.
pub struct ScanView {
    pub state: State,
    pub pos: int,
    pub ioa: u8,
    pub remaining: u8,
    pub asdh: ASDH,
    pub dui: DUI,
}

/// The state in which a scanner starts.
pub open spec fn scan_start() -> ScanView {
    ScanView {
        state: State::ScanASDH,
        pos: 0,
        ioa: 0,
        remaining: 0,
        asdh: ASDH { ca: 0, cot_pn: 0 },
        dui: DUI { ti: TI { raw: 0 }, vsq: VSQ { raw: 0 } },
    }
}

/// The states that a scanner can be in over a packet of `len` bytes.
pub open spec fn scan_wf(v: ScanView, len: int) -> bool {
    &&& 0 <= v.pos <= len
    &&& (v.state == State::ScanIOA || v.state == State::ScanIE) ==> v.remaining >= 1
}

/// One step of the scanner over `p` from `v`: the next state and what it yields.
pub open spec fn scan_step(v: ScanView, p: Seq<u8>) -> (ScanView, StepV) {
    let rem = p.len() - v.pos;
    match v.state {
        State::ScanASDH => {
            if rem < 2 {
                (v, StepV::Short)
            } else {
                let asdh = ASDH { ca: p[v.pos], cot_pn: p[v.pos + 1] };
                (
                    ScanView { state: State::ScanDUI, pos: v.pos + 2, asdh, ..v },
                    StepV::Token(TokenV::ASDH(asdh)),
                )
            }
        },
        State::ScanDUI => {
            if rem == 0 {
                (v, StepV::Eof)
            } else if rem < 2 {
                (v, StepV::Short)
            } else {
                let dui = DUI { ti: TI { raw: p[v.pos] }, vsq: VSQ { raw: p[v.pos + 1] } };
                if dui.vsq.spec_n() == 0 {
                    (ScanView { dui, remaining: 0, ..v }, StepV::Invalid)
                } else {
                    (
                        ScanView {
                            state: State::ScanIOA,
                            pos: v.pos + 2,
                            dui,
                            remaining: dui.vsq.spec_n(),
                            ..v
                        },
                        StepV::Token(TokenV::DUI(dui)),
                    )
                }
            }
        },
        State::ScanIOA => {
            if rem < 1 {
                (v, StepV::Short)
            } else {
                let ioa = p[v.pos];
                if cot_without_ie(v.asdh.spec_cot()) {
                    (
                        ScanView {
                            state: State::ScanDUI,
                            pos: v.pos + 1,
                            ioa,
                            remaining: (v.remaining - 1) as u8,
                            ..v
                        },
                        StepV::Token(TokenV::IOA(ioa)),
                    )
                } else {
                    (
                        ScanView { state: State::ScanIE, pos: v.pos + 1, ioa, ..v },
                        StepV::Token(TokenV::IOA(ioa)),
                    )
                }
            }
        },
        State::ScanIE => {
            let size = ie_size(v.dui.ti.raw) as int;
            if rem < size {
                (v, StepV::Short)
            } else {
                let bytes = p.subrange(v.pos, v.pos + size);
                let left = (v.remaining - 1) as u8;
                let next = if left > 0 {
                    if v.dui.vsq.spec_sq() {
                        ScanView {
                            state: State::ScanIE,
                            pos: v.pos + size,
                            remaining: left,
                            ioa: ((v.ioa + 1) % 256) as u8,
                            ..v
                        }
                    } else {
                        ScanView { state: State::ScanIOA, pos: v.pos + size, remaining: left, ..v }
                    }
                } else {
                    ScanView { state: State::ScanDUI, pos: v.pos + size, remaining: left, ..v }
                };
                (next, StepV::Token(TokenV::IE(v.dui.ti.raw, bytes)))
            }
        },
    }
}

/// Whether a token is the one that the model yields.
pub open spec fn token_matches(t: Token, tv: TokenV) -> bool {
    match (t, tv) {
        (Token::ASDH(a), TokenV::ASDH(b)) => a == b,
        (Token::DUI(a), TokenV::DUI(b)) => a == b,
        (Token::IOA(a), TokenV::IOA(b)) => a == b,
        (Token::IE(ie), TokenV::IE(ti, bytes)) => ie_kind_matches(ti, ie) && ie_bytes(ie) == bytes,
        _ => false,
    }
}

/// Whether a scanner result is what a step of the model yields.
pub open spec fn result_matches(r: Result<Token, Error>, s: StepV) -> bool {
    match s {
        StepV::Token(tv) => r is Ok && token_matches(r->Ok_0, tv),
        StepV::Eof => r == Err::<Token, Error>(Error::EOF),
        StepV::Short => r == Err::<Token, Error>(Error::ShortRead),
        StepV::Invalid => r is Err && r->Err_0 is InvalidPacket,
    }
}

/// Pull scanner over one packet; it holds no I/O state, and a new scanner
/// on the same bytes starts over.
pub struct Scanner<'a> {
    state: State,
    packet: &'a [u8],
    ioa: u8,
    ies_remaining: u8,
    pos: usize,
    /// packet asdh
    asdh: ASDH,
    /// latest dui
    dui: DUI,
}

impl<'a> Scanner<'a> {
    pub closed spec fn view(&self) -> ScanView {
        ScanView {
            state: self.state,
            pos: self.pos as int,
            ioa: self.ioa,
            remaining: self.ies_remaining,
            asdh: self.asdh,
            dui: self.dui,
        }
    }

    pub closed spec fn bytes(&self) -> Seq<u8> {
        self.packet@
    }

    pub closed spec fn wf(&self) -> bool {
        scan_wf(self.view(), self.packet@.len() as int)
    }

    pub fn new(packet: &'a [u8]) -> (r: Self)
        ensures
            r.view() == scan_start(),
            r.bytes() == packet@,
            r.wf(),
    {
        Scanner {
            state: State::ScanASDH,
            packet: packet,
            ioa: 0,
            ies_remaining: 0,
            pos: 0,
            asdh: ASDH { ca: 0, cot_pn: 0 },
            dui: DUI { ti: TI { raw: 0 }, vsq: VSQ { raw: 0 } },
        }
    }

    /// Scans the next token: one step of `scan_step`.
    pub fn next_token(&mut self) -> (r: Result<Token, Error>)
        requires
            old(self).wf(),
        ensures
            final(self).wf(),
            final(self).bytes() == old(self).bytes(),
            final(self).view() == scan_step(old(self).view(), old(self).bytes()).0,
            result_matches(r, scan_step(old(self).view(), old(self).bytes()).1),
    {
        let rem: usize = self.packet.len() - self.pos;
        match self.state {
            State::ScanASDH => {
                if rem < 2 {
                    return Err(Error::ShortRead);
                }
                self.asdh = ASDH { ca: self.packet[self.pos], cot_pn: self.packet[self.pos + 1] };
                self.pos = self.pos + 2;
                self.state = State::ScanDUI;
                Ok(Token::ASDH(self.asdh))
            },
            State::ScanDUI => {
                if rem == 0 {
                    // successfully reached the end
                    return Err(Error::EOF);
                } else if rem < 2 {
                    return Err(Error::ShortRead);
                }
                self.dui = DUI {
                    ti: TI { raw: self.packet[self.pos] },
                    vsq: VSQ { raw: self.packet[self.pos + 1] },
                };
                self.ies_remaining = self.dui.vsq.n();
                if self.ies_remaining == 0 {
                    return Err(Error::InvalidPacket("VSQ.N zero"));
                }
                self.pos = self.pos + 2;
                self.state = State::ScanIOA;
                Ok(Token::DUI(self.dui))
            },
            State::ScanIOA => {
                if rem < 1 {
                    return Err(Error::ShortRead);
                }
                self.ioa = self.packet[self.pos];
                self.pos = self.pos + 1;
                let cot = self.asdh.cot();
                if cot == crate::wire::COT_U_TI || cot == crate::wire::COT_U_COT || cot
                    == crate::wire::COT_U_IOA {
                    // such an ASDU carries no information element
                    self.ies_remaining = self.ies_remaining - 1;
                    self.state = State::ScanDUI;
                } else {
                    self.state = State::ScanIE;
                }
                Ok(Token::IOA(self.ioa))
            },
            State::ScanIE => {
                let size: usize = self.dui.ti.size() as usize;
                if rem < size {
                    return Err(Error::ShortRead);
                }
                let ie_buf = vstd::slice::slice_subrange(self.packet, self.pos, self.pos + size);
                proof {
                    assert(ie_buf@.subrange(0, size as int) =~= ie_buf@);
                }
                self.pos = self.pos + size;
                self.ies_remaining = self.ies_remaining - 1;
                if self.ies_remaining > 0 {
                    if self.dui.vsq.sq() {
                        self.state = State::ScanIE;
                        self.ioa = self.ioa.wrapping_add(1);
                    } else {
                        self.state = State::ScanIOA;
                    }
                } else {
                    self.state = State::ScanDUI;
                }
                match IE::try_from(self.dui.ti.value(), ie_buf) {
                    Ok(ie) => Ok(Token::IE(ie)),
                    Err(_) => Err(Error::InvalidPacket("IE invalid")),
                }
            },
        }
    }
}

/// A measure that every step yielding a token makes smaller.
pub open spec fn scan_measure(v: ScanView, len: int) -> int {
    (len - v.pos) * 256 + v.remaining
}

/// Every step that yields a token makes progress.
pub proof fn lemma_step_progress(v: ScanView, p: Seq<u8>)
    requires
        scan_wf(v, p.len() as int),
    ensures
        scan_wf(scan_step(v, p).0, p.len() as int),
        scan_step(v, p).1 is Token ==> scan_measure(scan_step(v, p).0, p.len() as int)
            < scan_measure(v, p.len() as int),
        scan_step(v, p).1 is Token ==> scan_step(v, p).0.pos >= v.pos,
{
}

/// An information object in the model.
pub struct IobV {
    pub asdh: ASDH,
    pub dui: DUI,
    pub ioa: u8,
    pub ti: u8,
    pub bytes: Seq<u8>,
}

/// What the object iterator yields next, in the model.
pub enum IobStepV {
    Item(IobV),
    /// An element before its ASDH, DUI or IOA.
    Missing,
    /// The scanner failed.
    Fail(StepV),
    /// The packet is parsed.
    End,
}

/// The object iterator's state in the model.
pub struct IobIterView {
    pub scan: ScanView,
    pub asdh: Option<ASDH>,
    pub dui: Option<DUI>,
    pub ioa: Option<u8>,
}

/// The next object from `v` over `p`: steps the scanner until an element or
/// an error, tracking the current ASDH, DUI and IOA.
pub open spec fn iob_next(v: IobIterView, p: Seq<u8>) -> (IobIterView, IobStepV)
    decreases scan_measure(v.scan, p.len() as int),
{
    if !scan_wf(v.scan, p.len() as int) {
        (v, IobStepV::End)
    } else {
        let (s, out) = scan_step(v.scan, p);
        match out {
            StepV::Token(TokenV::ASDH(a)) => iob_next(IobIterView { scan: s, asdh: Some(a), ..v }, p),
            StepV::Token(TokenV::DUI(d)) => iob_next(IobIterView { scan: s, dui: Some(d), ..v }, p),
            StepV::Token(TokenV::IOA(i)) => iob_next(IobIterView { scan: s, ioa: Some(i), ..v }, p),
            StepV::Token(TokenV::IE(ti, bytes)) => {
                if v.asdh is Some && v.dui is Some && v.ioa is Some {
                    let dui = v.dui->Some_0;
                    let ioa = v.ioa->Some_0;
                    let next_ioa = if dui.vsq.spec_sq() {
                        Some(((ioa + 1) % 256) as u8)
                    } else {
                        None
                    };
                    (
                        IobIterView { scan: s, ioa: next_ioa, ..v },
                        IobStepV::Item(IobV { asdh: v.asdh->Some_0, dui, ioa, ti, bytes }),
                    )
                } else {
                    (IobIterView { scan: s, ..v }, IobStepV::Missing)
                }
            },
            StepV::Eof => (IobIterView { scan: s, ..v }, IobStepV::End),
            _ => (IobIterView { scan: s, ..v }, IobStepV::Fail(out)),
        }
    }
}

/// Whether an object is the one of the model.
pub open spec fn iob_matches(iob: IOB, m: IobV) -> bool {
    &&& iob.asdh == m.asdh
    &&& iob.dui == m.dui
    &&& iob.ioa == m.ioa
    &&& ie_kind_matches(m.ti, iob.ie)
    &&& ie_bytes(iob.ie) == m.bytes
}

/// Whether an iterator result is what the model yields.
pub open spec fn iob_result_matches(r: Option<Result<IOB, Error>>, s: IobStepV) -> bool {
    match s {
        IobStepV::Item(m) => r is Some && r->Some_0 is Ok && iob_matches(r->Some_0->Ok_0, m),
        IobStepV::Missing => r is Some && r->Some_0 is Err && r->Some_0->Err_0 is InvalidPacket,
        IobStepV::Fail(f) => r is Some && result_matches(
            Err::<Token, Error>(r->Some_0->Err_0),
            f,
        ) && r->Some_0 is Err,
        IobStepV::End => r is None,
    }
}

/// The object iterator makes progress on every object it yields.
pub proof fn lemma_iob_progress(v: IobIterView, p: Seq<u8>)
    requires
        scan_wf(v.scan, p.len() as int),
    ensures
        scan_wf(iob_next(v, p).0.scan, p.len() as int),
        iob_next(v, p).1 is Item ==> scan_measure(iob_next(v, p).0.scan, p.len() as int)
            < scan_measure(v.scan, p.len() as int),
    decreases scan_measure(v.scan, p.len() as int),
{
    lemma_step_progress(v.scan, p);
    let (s, out) = scan_step(v.scan, p);
    match out {
        StepV::Token(TokenV::ASDH(a)) => {
            lemma_iob_progress(IobIterView { scan: s, asdh: Some(a), ..v }, p);
        },
        StepV::Token(TokenV::DUI(d)) => {
            lemma_iob_progress(IobIterView { scan: s, dui: Some(d), ..v }, p);
        },
        StepV::Token(TokenV::IOA(i)) => {
            lemma_iob_progress(IobIterView { scan: s, ioa: Some(i), ..v }, p);
        },
        _ => {},
    }
}

/// An assembled information object: the element with its ASDH, DUI and
/// (in sequence mode, incremented) IOA.
#[derive(Clone, Debug, PartialEq)]
pub struct IOB {
    pub asdh: ASDH,
    pub dui: DUI,
    pub ioa: IOA,
    pub ie: IE,
}

/// Iterator over the tokens of a packet; it ends at the packet's end.
pub struct ScannerIntoIterator<'a> {
    scanner: Scanner<'a>,
}

impl<'a> ScannerIntoIterator<'a> {
    pub closed spec fn view(&self) -> ScanView {
        self.scanner.view()
    }

    pub closed spec fn bytes(&self) -> Seq<u8> {
        self.scanner.bytes()
    }

    pub closed spec fn wf(&self) -> bool {
        self.scanner.wf()
    }

    /// The next token; `None` where the scanner reports the end of the packet.
    pub fn next(&mut self) -> (r: Option<Result<Token, Error>>)
        requires
            old(self).wf(),
        ensures
            final(self).wf(),
            final(self).bytes() == old(self).bytes(),
            final(self).view() == scan_step(old(self).view(), old(self).bytes()).0,
            scan_step(old(self).view(), old(self).bytes()).1 is Eof <==> r is None,
            r is Some ==> result_matches(r->Some_0, scan_step(old(self).view(), old(self).bytes()).1),
    {
        let res = self.scanner.next_token();
        match res {
            Err(Error::EOF) => None,
            _ => Some(res),
        }
    }
}

/// Iterator over the information objects of a packet.
pub struct ScannerIntoIOBIterator<'a> {
    scanner: Scanner<'a>,
    asdh: Option<ASDH>,
    dui: Option<DUI>,
    ioa: Option<IOA>,
}

impl<'a> ScannerIntoIOBIterator<'a> {
    pub closed spec fn view(&self) -> IobIterView {
        IobIterView { scan: self.scanner.view(), asdh: self.asdh, dui: self.dui, ioa: self.ioa }
    }

    pub closed spec fn bytes(&self) -> Seq<u8> {
        self.scanner.bytes()
    }

    pub closed spec fn wf(&self) -> bool {
        self.scanner.wf()
    }

    /// The next object: one step of `iob_next`.
    pub fn next(&mut self) -> (r: Option<Result<IOB, Error>>)
        requires
            old(self).wf(),
        ensures
            final(self).wf(),
            final(self).bytes() == old(self).bytes(),
            final(self).view() == iob_next(old(self).view(), old(self).bytes()).0,
            iob_result_matches(r, iob_next(old(self).view(), old(self).bytes()).1),
    {
        loop
            invariant
                self.wf(),
                self.bytes() == old(self).bytes(),
                iob_next(self.view(), self.bytes()) == iob_next(old(self).view(), old(self).bytes()),
            decreases scan_measure(self.view().scan, self.bytes().len() as int),
        {
            proof {
                lemma_step_progress(self.view().scan, self.bytes());
            }
            let res = self.scanner.next_token();
            match res {
                Ok(Token::ASDH(asdh)) => {
                    self.asdh = Some(asdh);
                },
                Ok(Token::DUI(dui)) => {
                    self.dui = Some(dui);
                },
                Ok(Token::IOA(ioa)) => {
                    self.ioa = Some(ioa);
                },
                Ok(Token::IE(ie)) => {
                    match (self.asdh, self.dui, self.ioa) {
                        (Some(asdh), Some(dui), Some(ioa)) => {
                            if dui.vsq.sq() {
                                self.ioa = Some(ioa.wrapping_add(1));
                            } else {
                                self.ioa = None;
                            }
                            return Some(Ok(IOB { asdh, dui, ioa, ie }));
                        },
                        (None, _, _) => {
                            return Some(Err(Error::InvalidPacket("Missing ASDH")));
                        },
                        (_, None, _) => {
                            return Some(Err(Error::InvalidPacket("Missing DUI")));
                        },
                        (_, _, None) => {
                            return Some(Err(Error::InvalidPacket("Missing IOA")));
                        },
                    }
                },
                Err(Error::EOF) => {
                    return None;
                },
                Err(e) => {
                    return Some(Err(e));
                },
            }
        }
    }
}

impl<'a> Scanner<'a> {
    pub fn into_iter(self) -> (r: ScannerIntoIterator<'a>)
        requires
            self.wf(),
        ensures
            r.wf(),
            r.view() == self.view(),
            r.bytes() == self.bytes(),
    {
        ScannerIntoIterator { scanner: self }
    }

    pub fn into_iob_iter(self) -> (r: ScannerIntoIOBIterator<'a>)
        requires
            self.wf(),
        ensures
            r.wf(),
            r.view() == (IobIterView { scan: self.view(), asdh: None, dui: None, ioa: None }),
            r.bytes() == self.bytes(),
    {
        ScannerIntoIOBIterator { scanner: self, asdh: None, dui: None, ioa: None }
    }
}

/// The objects that the iterator yields from `v` before it ends or fails.
pub open spec fn iob_items(v: IobIterView, p: Seq<u8>) -> Seq<IobV>
    decreases scan_measure(v.scan, p.len() as int),
    via iob_items_decreases
{
    if !scan_wf(v.scan, p.len() as int) {
        Seq::empty()
    } else {
        let (n, out) = iob_next(v, p);
        match out {
            IobStepV::Item(m) => seq![m] + iob_items(n, p),
            _ => Seq::empty(),
        }
    }
}

#[via_fn]
proof fn iob_items_decreases(v: IobIterView, p: Seq<u8>) {
    if scan_wf(v.scan, p.len() as int) {
        lemma_iob_progress(v, p);
    }
}

/// The state of the object iterator at the start of a packet.
pub open spec fn iob_start() -> IobIterView {
    IobIterView { scan: scan_start(), asdh: None, dui: None, ioa: None }
}

/// The objects of `packet` up to the end or the first error.
pub fn collect_iobs(packet: &[u8]) -> (r: Vec<IOB>)
    ensures
        r@.len() == iob_items(iob_start(), packet@).len(),
        forall|i: int|
            0 <= i < r@.len() ==> iob_matches(#[trigger] r@[i], iob_items(iob_start(), packet@)[i]),
{
    let mut it = Scanner::new(packet).into_iob_iter();
    let mut out: Vec<IOB> = Vec::new();
    let ghost all = iob_items(iob_start(), packet@);
    let ghost mut sofar: Seq<IobV> = Seq::empty();
    proof {
        assert(all =~= sofar + iob_items(it.view(), packet@));
    }
    loop
        invariant
            it.wf(),
            it.bytes() == packet@,
            all == iob_items(iob_start(), packet@),
            all == sofar + iob_items(it.view(), packet@),
            sofar.len() == out@.len(),
            forall|i: int| 0 <= i < out@.len() ==> iob_matches(#[trigger] out@[i], sofar[i]),
        decreases scan_measure(it.view().scan, packet@.len() as int),
    {
        let ghost v = it.view();
        proof {
            lemma_iob_progress(v, packet@);
        }
        match it.next() {
            Some(Ok(iob)) => {
                let ghost m = iob_next(v, packet@).1->Item_0;
                proof {
                    assert(iob_items(v, packet@) == seq![m] + iob_items(it.view(), packet@));
                    assert(all =~= sofar.push(m) + iob_items(it.view(), packet@));
                    sofar = sofar.push(m);
                }
                out.push(iob);
            },
            _ => {
                proof {
                    assert(iob_items(v, packet@) =~= Seq::<IobV>::empty());
                    assert(all =~= sofar);
                }
                return out;
            },
        }
    }
}

/// The tokens that the scanner yields from `v` over `p`, and how it stops.
pub open spec fn scan_all(v: ScanView, p: Seq<u8>) -> (Seq<TokenV>, StepV)
    decreases scan_measure(v, p.len() as int),
{
    if !scan_wf(v, p.len() as int) {
        (Seq::empty(), StepV::Eof)
    } else {
        let (n, out) = scan_step(v, p);
        match out {
            StepV::Token(t) => {
                let (ts, e) = scan_all(n, p);
                (seq![t] + ts, e)
            },
            _ => (Seq::empty(), out),
        }
    }
}

/// Scans a whole packet with `next_token`: the tokens up to the first
/// error, and that error (`EOF` where the packet ends cleanly).
pub fn scan_packet(packet: &[u8]) -> (r: (Vec<Token>, Error))
    ensures
        r.0@.len() == scan_all(scan_start(), packet@).0.len(),
        forall|i: int|
            0 <= i < r.0@.len() ==> token_matches(
                #[trigger] r.0@[i],
                scan_all(scan_start(), packet@).0[i],
            ),
        result_matches(Err::<Token, Error>(r.1), scan_all(scan_start(), packet@).1),
        r.0@.len() <= 256 * packet@.len(),
{
    let mut s = Scanner::new(packet);
    let mut out: Vec<Token> = Vec::new();
    let ghost all = scan_all(scan_start(), packet@);
    let ghost mut sofar: Seq<TokenV> = Seq::empty();
    proof {
        assert(all.0 =~= sofar + scan_all(s.view(), packet@).0);
    }
    loop
        invariant
            s.wf(),
            s.bytes() == packet@,
            all == scan_all(scan_start(), packet@),
            all.0 == sofar + scan_all(s.view(), packet@).0,
            all.1 == scan_all(s.view(), packet@).1,
            sofar.len() == out@.len(),
            forall|i: int| 0 <= i < out@.len() ==> token_matches(#[trigger] out@[i], sofar[i]),
            out@.len() + scan_measure(s.view(), packet@.len() as int) <= 256 * packet@.len(),
        decreases scan_measure(s.view(), packet@.len() as int),
    {
        let ghost v = s.view();
        proof {
            lemma_step_progress(v, packet@);
        }
        match s.next_token() {
            Ok(t) => {
                let ghost tv = scan_step(v, packet@).1->Token_0;
                proof {
                    assert(scan_all(v, packet@).0 == seq![tv] + scan_all(s.view(), packet@).0);
                    assert(all.0 =~= sofar.push(tv) + scan_all(s.view(), packet@).0);
                    sofar = sofar.push(tv);
                }
                out.push(t);
            },
            Err(e) => {
                proof {
                    assert(scan_all(v, packet@).0 =~= Seq::<TokenV>::empty());
                    assert(all.0 =~= sofar);
                    assert(scan_measure(v, packet@.len() as int) >= 0);
                }
                return (out, e);
            },
        }
    }
}

} // verus!
