//! Laws of the codec: what the scanner makes of a packet that the builder
//! writes.

use vstd::prelude::*;

use crate::packet::{asdh_bytes, dui_bytes};
use crate::scanner::{
    State, ScanView, StepV, Token, TokenV, scan_all, scan_start, scan_step, scan_wf, token_matches,
};
use crate::wire::{ASDH, DUI, IE, cot_without_ie, ie_size, is_decoded_ti};

verus! {

/// The bytes that a token stands for on the wire.
pub open spec fn token_bytes(t: TokenV) -> Seq<u8> {
    match t {
        TokenV::ASDH(a) => asdh_bytes(a),
        TokenV::DUI(d) => dui_bytes(d),
        TokenV::IOA(i) => seq![i],
        TokenV::IE(_, b) => b,
    }
}

/// The bytes of a token sequence, one token after the other.
pub open spec fn tokens_bytes(ts: Seq<TokenV>) -> Seq<u8>
    decreases ts.len(),
{
    if ts.len() == 0 {
        Seq::empty()
    } else {
        token_bytes(ts[0]) + tokens_bytes(ts.drop_first())
    }
}

/// One group as the builder writes it: its DUI, its IOAs (one in sequence
/// mode) and the bytes of its elements.
pub struct GroupV {
    pub dui: DUI,
    pub ioas: Seq<u8>,
    pub ies: Seq<Seq<u8>>,
}

/// Element tokens of type `ti`.
pub open spec fn ie_tokens(ti: u8, ies: Seq<Seq<u8>>) -> Seq<TokenV> {
    Seq::new(ies.len(), |i: int| TokenV::IE(ti, ies[i]))
}

/// IOA and element tokens in turn.
pub open spec fn pair_tokens(ti: u8, ioas: Seq<u8>, ies: Seq<Seq<u8>>) -> Seq<TokenV>
    decreases ioas.len(),
{
    if ioas.len() == 0 || ies.len() == 0 {
        Seq::empty()
    } else {
        seq![TokenV::IOA(ioas[0]), TokenV::IE(ti, ies[0])] + pair_tokens(
            ti,
            ioas.drop_first(),
            ies.drop_first(),
        )
    }
}

/// The tokens of a group under the cause `cot`.
pub open spec fn group_tokens(g: GroupV, cot: u8) -> Seq<TokenV> {
    seq![TokenV::DUI(g.dui)] + if cot_without_ie(cot) {
        seq![TokenV::IOA(g.ioas[0])]
    } else if g.dui.vsq.spec_sq() {
        seq![TokenV::IOA(g.ioas[0])] + ie_tokens(g.dui.ti.raw, g.ies)
    } else {
        pair_tokens(g.dui.ti.raw, g.ioas, g.ies)
    }
}

pub open spec fn groups_tokens(gs: Seq<GroupV>, cot: u8) -> Seq<TokenV>
    decreases gs.len(),
{
    if gs.len() == 0 {
        Seq::empty()
    } else {
        group_tokens(gs[0], cot) + groups_tokens(gs.drop_first(), cot)
    }
}

/// The tokens of a packet: its ASDH, then its groups.
pub open spec fn packet_tokens(asdh: ASDH, gs: Seq<GroupV>) -> Seq<TokenV> {
    seq![TokenV::ASDH(asdh)] + groups_tokens(gs, asdh.spec_cot())
}

/// A group that agrees with its DUI: N (at least one) elements of the
/// width that the type gives, each after its own IOA, or all after one IOA
/// in sequence mode; under a cause that carries no element, one IOA alone.
pub open spec fn group_ok(g: GroupV, cot: u8) -> bool {
    let n = g.dui.vsq.spec_n() as int;
    let size = ie_size(g.dui.ti.raw);
    &&& n >= 1
    &&& forall|i: int| 0 <= i < g.ies.len() ==> (#[trigger] g.ies[i]).len() == size
    &&& if cot_without_ie(cot) {
        g.ioas.len() == 1 && g.ies.len() == 0
    } else if g.dui.vsq.spec_sq() {
        g.ioas.len() == 1 && g.ies.len() == n
    } else {
        g.ioas.len() == n && g.ies.len() == n
    }
}

proof fn lemma_tokens_bytes_append(a: Seq<TokenV>, b: Seq<TokenV>)
    ensures
        tokens_bytes(a + b) == tokens_bytes(a) + tokens_bytes(b),
    decreases a.len(),
{
    if a.len() == 0 {
        assert(a + b =~= b);
        assert(tokens_bytes(a) + tokens_bytes(b) =~= tokens_bytes(b));
    } else {
        lemma_tokens_bytes_append(a.drop_first(), b);
        assert((a + b).drop_first() =~= a.drop_first() + b);
        assert(tokens_bytes(a + b) =~= tokens_bytes(a) + tokens_bytes(b));
    }
}

proof fn lemma_tokens_bytes_single(t: TokenV)
    ensures
        tokens_bytes(seq![t]) == token_bytes(t),
{
    let s = seq![t];
    assert(s.drop_first() =~= Seq::<TokenV>::empty());
    assert(tokens_bytes(s.drop_first()) == Seq::<u8>::empty());
    assert(s[0] == t);
    assert(tokens_bytes(s) =~= token_bytes(t));
}

proof fn lemma_prefix_split(p: Seq<u8>, a: int, x: Seq<u8>, y: Seq<u8>)
    requires
        0 <= a,
        a + x.len() + y.len() <= p.len(),
        p.subrange(a, a + x.len() + y.len()) == x + y,
    ensures
        p.subrange(a, a + x.len()) == x,
        p.subrange(a + x.len(), a + x.len() + y.len()) == y,
{
    assert(p.subrange(a, a + x.len()) =~= (x + y).subrange(0, x.len() as int));
    assert((x + y).subrange(0, x.len() as int) =~= x);
    assert(p.subrange(a + x.len(), a + x.len() + y.len()) =~= (x + y).subrange(
        x.len() as int,
        (x.len() + y.len()) as int,
    ));
    assert((x + y).subrange(x.len() as int, (x.len() + y.len()) as int) =~= y);
}

proof fn lemma_scan_sq(v: ScanView, p: Seq<u8>, ies: Seq<Seq<u8>>)
    requires
        scan_wf(v, p.len() as int),
        v.state == State::ScanIE,
        v.dui.vsq.spec_sq(),
        v.remaining as int == ies.len(),
        ies.len() >= 1,
        forall|i: int| 0 <= i < ies.len() ==> (#[trigger] ies[i]).len() == ie_size(v.dui.ti.raw),
        v.pos + tokens_bytes(ie_tokens(v.dui.ti.raw, ies)).len() <= p.len(),
        p.subrange(v.pos, v.pos + tokens_bytes(ie_tokens(v.dui.ti.raw, ies)).len()) == tokens_bytes(
            ie_tokens(v.dui.ti.raw, ies),
        ),
    ensures
        exists|w: ScanView|
            {
                &&& w.state == State::ScanDUI
                &&& w.asdh == v.asdh
                &&& w.pos == v.pos + tokens_bytes(ie_tokens(v.dui.ti.raw, ies)).len()
                &&& scan_wf(w, p.len() as int)
                &&& #[trigger] scan_all(v, p) == (ie_tokens(v.dui.ti.raw, ies) + scan_all(w, p).0, scan_all(w, p).1)
            },
    decreases ies.len(),
{
    let ti = v.dui.ti.raw;
    let ts = ie_tokens(ti, ies);
    let rest = ies.drop_first();
    assert(ts.drop_first() =~= ie_tokens(ti, rest));
    assert(tokens_bytes(ts) == ies[0] + tokens_bytes(ie_tokens(ti, rest)));
    lemma_prefix_split(p, v.pos, ies[0], tokens_bytes(ie_tokens(ti, rest)));
    let (n, out) = scan_step(v, p);
    assert(out == StepV::Token(TokenV::IE(ti, ies[0])));
    if ies.len() == 1 {
        assert(rest.len() == 0);
        assert(ts =~= seq![TokenV::IE(ti, ies[0])]);
        assert(n.state == State::ScanDUI);
        let w = n;
        assert(scan_all(w, p) == scan_all(n, p));
        assert(scan_all(v, p) == (ts + scan_all(w, p).0, scan_all(w, p).1));
    } else {
        assert(n.state == State::ScanIE);
        assert forall|i: int| 0 <= i < rest.len() implies (#[trigger] rest[i]).len() == ie_size(n.dui.ti.raw) by {
            assert(rest[i] == ies[i + 1]);
        }
        lemma_scan_sq(n, p, rest);
        let w = choose|w: ScanView|
            {
                &&& w.state == State::ScanDUI
                &&& w.asdh == n.asdh
                &&& w.pos == n.pos + tokens_bytes(ie_tokens(n.dui.ti.raw, rest)).len()
                &&& scan_wf(w, p.len() as int)
                &&& #[trigger] scan_all(n, p) == (ie_tokens(n.dui.ti.raw, rest) + scan_all(w, p).0, scan_all(w, p).1)
            };
        assert(ts =~= seq![TokenV::IE(ti, ies[0])] + ie_tokens(ti, rest));
        assert(scan_all(v, p).0 =~= ts + scan_all(w, p).0);
    }
}

proof fn lemma_scan_pairs(v: ScanView, p: Seq<u8>, ioas: Seq<u8>, ies: Seq<Seq<u8>>)
    requires
        scan_wf(v, p.len() as int),
        v.state == State::ScanIOA,
        !cot_without_ie(v.asdh.spec_cot()),
        !v.dui.vsq.spec_sq(),
        v.remaining as int == ies.len(),
        ioas.len() == ies.len(),
        ies.len() >= 1,
        forall|i: int| 0 <= i < ies.len() ==> (#[trigger] ies[i]).len() == ie_size(v.dui.ti.raw),
        v.pos + tokens_bytes(pair_tokens(v.dui.ti.raw, ioas, ies)).len() <= p.len(),
        p.subrange(v.pos, v.pos + tokens_bytes(pair_tokens(v.dui.ti.raw, ioas, ies)).len())
            == tokens_bytes(pair_tokens(v.dui.ti.raw, ioas, ies)),
    ensures
        exists|w: ScanView|
            {
                &&& w.state == State::ScanDUI
                &&& w.asdh == v.asdh
                &&& w.pos == v.pos + tokens_bytes(pair_tokens(v.dui.ti.raw, ioas, ies)).len()
                &&& scan_wf(w, p.len() as int)
                &&& #[trigger] scan_all(v, p) == (pair_tokens(v.dui.ti.raw, ioas, ies) + scan_all(w, p).0, scan_all(w, p).1)
            },
    decreases ies.len(),
{
    let ti = v.dui.ti.raw;
    let ts = pair_tokens(ti, ioas, ies);
    let rest = pair_tokens(ti, ioas.drop_first(), ies.drop_first());
    let head = seq![TokenV::IOA(ioas[0]), TokenV::IE(ti, ies[0])];
    assert(ts == head + rest);
    lemma_tokens_bytes_append(head, rest);
    assert(head.drop_first().drop_first() =~= Seq::<TokenV>::empty());
    assert(tokens_bytes(head) =~= seq![ioas[0]] + ies[0]) by {
        assert(head.drop_first() =~= seq![TokenV::IE(ti, ies[0])]);
        assert(tokens_bytes(head.drop_first()) =~= ies[0] + tokens_bytes(Seq::<TokenV>::empty()));
    }
    lemma_prefix_split(p, v.pos, tokens_bytes(head), tokens_bytes(rest));
    lemma_prefix_split(p, v.pos, seq![ioas[0]], ies[0]);
    let (n1, o1) = scan_step(v, p);
    assert(p[v.pos] == ioas[0]) by {
        assert(p.subrange(v.pos, v.pos + 1)[0] == p[v.pos]);
    }
    assert(o1 == StepV::Token(TokenV::IOA(ioas[0])));
    assert(n1.state == State::ScanIE);
    let (n2, o2) = scan_step(n1, p);
    assert(o2 == StepV::Token(TokenV::IE(ti, ies[0])));
    assert(scan_all(v, p).0 == seq![TokenV::IOA(ioas[0])] + scan_all(n1, p).0);
    assert(scan_all(n1, p).0 == seq![TokenV::IE(ti, ies[0])] + scan_all(n2, p).0);
    if ies.len() == 1 {
        assert(rest =~= Seq::<TokenV>::empty());
        assert(n2.state == State::ScanDUI);
        let w = n2;
        assert(scan_all(v, p).0 =~= ts + scan_all(w, p).0);
    } else {
        assert(n2.state == State::ScanIOA);
        let ri = ies.drop_first();
        assert forall|i: int| 0 <= i < ri.len() implies (#[trigger] ri[i]).len() == ie_size(n2.dui.ti.raw) by {
            assert(ri[i] == ies[i + 1]);
        }
        lemma_scan_pairs(n2, p, ioas.drop_first(), ri);
        let w = choose|w: ScanView|
            {
                &&& w.state == State::ScanDUI
                &&& w.asdh == n2.asdh
                &&& w.pos == n2.pos + tokens_bytes(pair_tokens(n2.dui.ti.raw, ioas.drop_first(), ri)).len()
                &&& scan_wf(w, p.len() as int)
                &&& #[trigger] scan_all(n2, p) == (pair_tokens(n2.dui.ti.raw, ioas.drop_first(), ri) + scan_all(w, p).0, scan_all(w, p).1)
            };
        assert(scan_all(v, p).0 =~= ts + scan_all(w, p).0);
    }
}

proof fn lemma_scan_group(v: ScanView, p: Seq<u8>, g: GroupV)
    requires
        scan_wf(v, p.len() as int),
        v.state == State::ScanDUI,
        group_ok(g, v.asdh.spec_cot()),
        v.pos + tokens_bytes(group_tokens(g, v.asdh.spec_cot())).len() <= p.len(),
        p.subrange(v.pos, v.pos + tokens_bytes(group_tokens(g, v.asdh.spec_cot())).len())
            == tokens_bytes(group_tokens(g, v.asdh.spec_cot())),
    ensures
        exists|w: ScanView|
            {
                &&& w.state == State::ScanDUI
                &&& w.asdh == v.asdh
                &&& w.pos == v.pos + tokens_bytes(group_tokens(g, v.asdh.spec_cot())).len()
                &&& scan_wf(w, p.len() as int)
                &&& #[trigger] scan_all(v, p) == (group_tokens(g, v.asdh.spec_cot()) + scan_all(w, p).0, scan_all(w, p).1)
            },
{
    let cot = v.asdh.spec_cot();
    let ti = g.dui.ti.raw;
    let gt = group_tokens(g, cot);
    let body = gt.drop_first();
    assert(gt == seq![TokenV::DUI(g.dui)] + body);
    lemma_tokens_bytes_append(seq![TokenV::DUI(g.dui)], body);
    assert(tokens_bytes(seq![TokenV::DUI(g.dui)]) =~= dui_bytes(g.dui)) by {
        assert(seq![TokenV::DUI(g.dui)].drop_first() =~= Seq::<TokenV>::empty());
    }
    lemma_prefix_split(p, v.pos, dui_bytes(g.dui), tokens_bytes(body));
    assert(p[v.pos] == g.dui.ti.raw && p[v.pos + 1] == g.dui.vsq.raw) by {
        assert(p.subrange(v.pos, v.pos + 2)[0] == p[v.pos]);
        assert(p.subrange(v.pos, v.pos + 2)[1] == p[v.pos + 1]);
    }
    if cot_without_ie(cot) {
        assert(body =~= seq![TokenV::IOA(g.ioas[0])]);
        lemma_tokens_bytes_single(TokenV::IOA(g.ioas[0]));
    } else if g.dui.vsq.spec_sq() {
        assert(body == seq![TokenV::IOA(g.ioas[0])] + ie_tokens(ti, g.ies));
        lemma_tokens_bytes_append(seq![TokenV::IOA(g.ioas[0])], ie_tokens(ti, g.ies));
        lemma_tokens_bytes_single(TokenV::IOA(g.ioas[0]));
        lemma_prefix_split(p, v.pos + 2, seq![g.ioas[0]], tokens_bytes(ie_tokens(ti, g.ies)));
    } else {
        assert(body == pair_tokens(ti, g.ioas, g.ies));
    }
    let (n1, o1) = scan_step(v, p);
    assert(o1 == StepV::Token(TokenV::DUI(g.dui)));
    assert(n1.state == State::ScanIOA && n1.pos == v.pos + 2 && n1.dui == g.dui);
    assert(scan_all(v, p).0 == seq![TokenV::DUI(g.dui)] + scan_all(n1, p).0);
    if cot_without_ie(cot) {
        assert(p[v.pos + 2] == g.ioas[0]) by {
            assert(p.subrange(v.pos + 2, v.pos + 3)[0] == p[v.pos + 2]);
        }
        let (n2, o2) = scan_step(n1, p);
        assert(o2 == StepV::Token(TokenV::IOA(g.ioas[0])));
        let w = n2;
        assert(scan_all(v, p).0 =~= gt + scan_all(w, p).0);
    } else if g.dui.vsq.spec_sq() {
        assert(p[v.pos + 2] == g.ioas[0]) by {
            assert(p.subrange(v.pos + 2, v.pos + 3)[0] == p[v.pos + 2]);
        }
        let (n2, o2) = scan_step(n1, p);
        assert(o2 == StepV::Token(TokenV::IOA(g.ioas[0])));
        assert(n2.state == State::ScanIE);
        lemma_scan_sq(n2, p, g.ies);
        let w = choose|w: ScanView|
            {
                &&& w.state == State::ScanDUI
                &&& w.asdh == n2.asdh
                &&& w.pos == n2.pos + tokens_bytes(ie_tokens(n2.dui.ti.raw, g.ies)).len()
                &&& scan_wf(w, p.len() as int)
                &&& #[trigger] scan_all(n2, p) == (ie_tokens(n2.dui.ti.raw, g.ies) + scan_all(w, p).0, scan_all(w, p).1)
            };
        assert(scan_all(v, p).0 =~= gt + scan_all(w, p).0);
    } else {
        lemma_scan_pairs(n1, p, g.ioas, g.ies);
        let w = choose|w: ScanView|
            {
                &&& w.state == State::ScanDUI
                &&& w.asdh == n1.asdh
                &&& w.pos == n1.pos + tokens_bytes(pair_tokens(n1.dui.ti.raw, g.ioas, g.ies)).len()
                &&& scan_wf(w, p.len() as int)
                &&& #[trigger] scan_all(n1, p) == (pair_tokens(n1.dui.ti.raw, g.ioas, g.ies) + scan_all(w, p).0, scan_all(w, p).1)
            };
        assert(scan_all(v, p).0 =~= gt + scan_all(w, p).0);
    }
}

proof fn lemma_scan_groups(v: ScanView, p: Seq<u8>, gs: Seq<GroupV>)
    requires
        scan_wf(v, p.len() as int),
        v.state == State::ScanDUI,
        forall|i: int| 0 <= i < gs.len() ==> group_ok(#[trigger] gs[i], v.asdh.spec_cot()),
        v.pos + tokens_bytes(groups_tokens(gs, v.asdh.spec_cot())).len() == p.len(),
        p.subrange(v.pos, p.len() as int) == tokens_bytes(groups_tokens(gs, v.asdh.spec_cot())),
    ensures
        scan_all(v, p) == (groups_tokens(gs, v.asdh.spec_cot()), StepV::Eof),
    decreases gs.len(),
{
    let cot = v.asdh.spec_cot();
    if gs.len() == 0 {
        assert(scan_all(v, p).0 =~= groups_tokens(gs, cot));
    } else {
        let g0 = group_tokens(gs[0], cot);
        let rest = groups_tokens(gs.drop_first(), cot);
        lemma_tokens_bytes_append(g0, rest);
        lemma_prefix_split(p, v.pos, tokens_bytes(g0), tokens_bytes(rest));
        lemma_scan_group(v, p, gs[0]);
        let w = choose|w: ScanView|
            {
                &&& w.state == State::ScanDUI
                &&& w.asdh == v.asdh
                &&& w.pos == v.pos + tokens_bytes(group_tokens(gs[0], v.asdh.spec_cot())).len()
                &&& scan_wf(w, p.len() as int)
                &&& #[trigger] scan_all(v, p) == (group_tokens(gs[0], v.asdh.spec_cot()) + scan_all(w, p).0, scan_all(w, p).1)
            };
        assert forall|i: int| 0 <= i < gs.drop_first().len() implies group_ok(#[trigger] gs.drop_first()[i], w.asdh.spec_cot()) by {
            assert(gs.drop_first()[i] == gs[i + 1]);
        }
        lemma_scan_groups(w, p, gs.drop_first());
    }
}

/// Codec round trip: a packet written as an ASDH and well-formed groups
/// scans back to exactly its tokens, then ends cleanly (`scan_packet`,
/// which calls `next_token` until an error, gives what `scan_all` says).
pub proof fn lemma_round_trip(asdh: ASDH, gs: Seq<GroupV>)
    requires
        forall|i: int| 0 <= i < gs.len() ==> group_ok(#[trigger] gs[i], asdh.spec_cot()),
    ensures
        scan_all(scan_start(), tokens_bytes(packet_tokens(asdh, gs))) == (
            packet_tokens(asdh, gs),
            StepV::Eof,
        ),
{
    let cot = asdh.spec_cot();
    let head = seq![TokenV::ASDH(asdh)];
    let rest = groups_tokens(gs, cot);
    let p = tokens_bytes(packet_tokens(asdh, gs));
    lemma_tokens_bytes_append(head, rest);
    lemma_tokens_bytes_single(TokenV::ASDH(asdh));
    assert(p == asdh_bytes(asdh) + tokens_bytes(rest));
    assert(p[0] == asdh.ca && p[1] == asdh.cot_pn);
    let v = scan_start();
    let (n, o) = scan_step(v, p);
    assert(o == StepV::Token(TokenV::ASDH(asdh)));
    assert(n.asdh == asdh && n.state == State::ScanDUI && n.pos == 2);
    assert(p.subrange(2, p.len() as int) =~= tokens_bytes(rest));
    lemma_scan_groups(n, p, gs);
    assert(scan_all(v, p).0 =~= packet_tokens(asdh, gs));
}

proof fn lemma_cut_bytes(p: Seq<u8>, a: int, x: Seq<u8>, y: Seq<u8>)
    requires
        0 <= a <= p.len(),
        a + x.len() <= p.len(),
        p.len() <= a + x.len() + y.len(),
        p.subrange(a, p.len() as int) == (x + y).subrange(0, p.len() - a),
    ensures
        p.subrange(a, a + x.len()) == x,
        p.subrange(a + x.len(), p.len() as int) == y.subrange(0, p.len() - a - x.len()),
{
    assert(p.subrange(a, a + x.len()) =~= (x + y).subrange(0, x.len() as int));
    assert((x + y).subrange(0, x.len() as int) =~= x);
    assert forall|i: int| 0 <= i < p.len() - a - x.len() implies #[trigger] p.subrange(a + x.len(), p.len() as int)[i]
        == (x + y).subrange(x.len() as int, p.len() - a)[i] by {
        assert(p.subrange(a, p.len() as int)[i + x.len()] == p[a + x.len() + i]);
    }
    assert(p.subrange(a + x.len(), p.len() as int) =~= (x + y).subrange(x.len() as int, p.len() - a));
    assert((x + y).subrange(x.len() as int, p.len() - a) =~= y.subrange(0, p.len() - a - x.len()));
}

proof fn lemma_scan_sq_cut(v: ScanView, p: Seq<u8>, ies: Seq<Seq<u8>>)
    requires
        scan_wf(v, p.len() as int),
        v.state == State::ScanIE,
        v.dui.vsq.spec_sq(),
        v.remaining as int == ies.len(),
        ies.len() >= 1,
        forall|i: int| 0 <= i < ies.len() ==> (#[trigger] ies[i]).len() == ie_size(v.dui.ti.raw),
        p.len() < v.pos + tokens_bytes(ie_tokens(v.dui.ti.raw, ies)).len(),
        p.subrange(v.pos, p.len() as int) == tokens_bytes(ie_tokens(v.dui.ti.raw, ies)).subrange(
            0,
            p.len() - v.pos,
        ),
    ensures
        scan_all(v, p).1 == StepV::Short,
    decreases ies.len(),
{
    let ti = v.dui.ti.raw;
    let ts = ie_tokens(ti, ies);
    let rest = ies.drop_first();
    assert(ts.drop_first() =~= ie_tokens(ti, rest));
    assert(tokens_bytes(ts) == ies[0] + tokens_bytes(ie_tokens(ti, rest)));
    let size = ie_size(ti) as int;
    if p.len() - v.pos >= size {
        lemma_cut_bytes(p, v.pos, ies[0], tokens_bytes(ie_tokens(ti, rest)));
        let (n, out) = scan_step(v, p);
        assert(out == StepV::Token(TokenV::IE(ti, ies[0])));
        if ies.len() == 1 {
            assert(rest.len() == 0);
            assert(tokens_bytes(ie_tokens(ti, rest)) =~= Seq::<u8>::empty()) by {
                assert(ie_tokens(ti, rest) =~= Seq::<TokenV>::empty());
            }
        }
        assert(ies.len() > 1);
        assert forall|i: int| 0 <= i < rest.len() implies (#[trigger] rest[i]).len() == ie_size(n.dui.ti.raw) by {
            assert(rest[i] == ies[i + 1]);
        }
        lemma_scan_sq_cut(n, p, rest);
    }
}

proof fn lemma_scan_pairs_cut(v: ScanView, p: Seq<u8>, ioas: Seq<u8>, ies: Seq<Seq<u8>>)
    requires
        scan_wf(v, p.len() as int),
        v.state == State::ScanIOA,
        !cot_without_ie(v.asdh.spec_cot()),
        !v.dui.vsq.spec_sq(),
        v.remaining as int == ies.len(),
        ioas.len() == ies.len(),
        ies.len() >= 1,
        forall|i: int| 0 <= i < ies.len() ==> (#[trigger] ies[i]).len() == ie_size(v.dui.ti.raw),
        p.len() < v.pos + tokens_bytes(pair_tokens(v.dui.ti.raw, ioas, ies)).len(),
        p.subrange(v.pos, p.len() as int) == tokens_bytes(pair_tokens(v.dui.ti.raw, ioas, ies)).subrange(
            0,
            p.len() - v.pos,
        ),
    ensures
        scan_all(v, p).1 == StepV::Short,
    decreases ies.len(),
{
    let ti = v.dui.ti.raw;
    let ts = pair_tokens(ti, ioas, ies);
    let rest = pair_tokens(ti, ioas.drop_first(), ies.drop_first());
    let head = seq![TokenV::IOA(ioas[0]), TokenV::IE(ti, ies[0])];
    assert(ts == head + rest);
    lemma_tokens_bytes_append(head, rest);
    assert(tokens_bytes(head) =~= seq![ioas[0]] + ies[0]) by {
        assert(head.drop_first() =~= seq![TokenV::IE(ti, ies[0])]);
        lemma_tokens_bytes_single(TokenV::IE(ti, ies[0]));
    }
    let size = ie_size(ti) as int;
    if p.len() - v.pos >= 1 {
        let (n1, o1) = scan_step(v, p);
        assert(p[v.pos] == ioas[0]) by {
            assert(p.subrange(v.pos, p.len() as int)[0] == p[v.pos]);
        }
        assert(o1 == StepV::Token(TokenV::IOA(ioas[0])));
        assert(scan_all(v, p).1 == scan_all(n1, p).1);
        if p.len() - v.pos - 1 < size {
            assert(scan_step(n1, p).1 == StepV::Short);
        }
        if p.len() - v.pos - 1 >= size {
            assert(seq![ioas[0]] + ies[0] + tokens_bytes(rest) =~= seq![ioas[0]] + (ies[0] + tokens_bytes(rest)));
            lemma_cut_bytes(p, v.pos, seq![ioas[0]], ies[0] + tokens_bytes(rest));
            lemma_cut_bytes(p, v.pos + 1, ies[0], tokens_bytes(rest));
            let (n2, o2) = scan_step(n1, p);
            assert(o2 == StepV::Token(TokenV::IE(ti, ies[0])));
            assert(scan_all(n1, p).1 == scan_all(n2, p).1);
            if ies.len() == 1 {
                assert(rest =~= Seq::<TokenV>::empty());
                assert(tokens_bytes(rest) =~= Seq::<u8>::empty());
            }
            assert(ies.len() > 1);
            let ri = ies.drop_first();
            assert forall|i: int| 0 <= i < ri.len() implies (#[trigger] ri[i]).len() == ie_size(n2.dui.ti.raw) by {
                assert(ri[i] == ies[i + 1]);
            }
            lemma_scan_pairs_cut(n2, p, ioas.drop_first(), ri);
        }
    }
}

proof fn lemma_scan_group_cut(v: ScanView, p: Seq<u8>, g: GroupV)
    requires
        scan_wf(v, p.len() as int),
        v.state == State::ScanDUI,
        group_ok(g, v.asdh.spec_cot()),
        v.pos < p.len() < v.pos + tokens_bytes(group_tokens(g, v.asdh.spec_cot())).len(),
        p.subrange(v.pos, p.len() as int) == tokens_bytes(group_tokens(g, v.asdh.spec_cot())).subrange(
            0,
            p.len() - v.pos,
        ),
    ensures
        scan_all(v, p).1 == StepV::Short,
{
    let cot = v.asdh.spec_cot();
    let ti = g.dui.ti.raw;
    let gt = group_tokens(g, cot);
    let body = gt.drop_first();
    assert(gt == seq![TokenV::DUI(g.dui)] + body);
    lemma_tokens_bytes_append(seq![TokenV::DUI(g.dui)], body);
    lemma_tokens_bytes_single(TokenV::DUI(g.dui));
    if p.len() - v.pos < 2 {
        assert(scan_step(v, p).1 == StepV::Short);
    } else {
        lemma_cut_bytes(p, v.pos, dui_bytes(g.dui), tokens_bytes(body));
        assert(p[v.pos] == g.dui.ti.raw && p[v.pos + 1] == g.dui.vsq.raw) by {
            assert(p.subrange(v.pos, v.pos + 2)[0] == p[v.pos]);
            assert(p.subrange(v.pos, v.pos + 2)[1] == p[v.pos + 1]);
        }
        let (n1, o1) = scan_step(v, p);
        assert(o1 == StepV::Token(TokenV::DUI(g.dui)));
        assert(n1.state == State::ScanIOA && n1.pos == v.pos + 2 && n1.dui == g.dui);
        assert(scan_all(v, p).1 == scan_all(n1, p).1);
        if cot_without_ie(cot) {
            assert(body =~= seq![TokenV::IOA(g.ioas[0])]);
            lemma_tokens_bytes_single(TokenV::IOA(g.ioas[0]));
            assert(p.len() - n1.pos < 1);
            assert(scan_step(n1, p).1 == StepV::Short);
        } else if g.dui.vsq.spec_sq() {
            assert(body == seq![TokenV::IOA(g.ioas[0])] + ie_tokens(ti, g.ies));
            lemma_tokens_bytes_append(seq![TokenV::IOA(g.ioas[0])], ie_tokens(ti, g.ies));
            lemma_tokens_bytes_single(TokenV::IOA(g.ioas[0]));
            if p.len() - n1.pos >= 1 {
                lemma_cut_bytes(p, v.pos + 2, seq![g.ioas[0]], tokens_bytes(ie_tokens(ti, g.ies)));
                assert(p[v.pos + 2] == g.ioas[0]) by {
                    assert(p.subrange(v.pos + 2, v.pos + 3)[0] == p[v.pos + 2]);
                }
                let (n2, o2) = scan_step(n1, p);
                assert(o2 == StepV::Token(TokenV::IOA(g.ioas[0])));
                assert(scan_all(n1, p).1 == scan_all(n2, p).1);
                lemma_scan_sq_cut(n2, p, g.ies);
            } else {
                assert(scan_step(n1, p).1 == StepV::Short);
            }
        } else {
            assert(body == pair_tokens(ti, g.ioas, g.ies));
            lemma_scan_pairs_cut(n1, p, g.ioas, g.ies);
        }
    }
}

/// Whether `k` bytes into the groups `gs` is the end of a group (or their
/// start).
pub open spec fn at_group_boundary(k: int, gs: Seq<GroupV>, cot: u8) -> bool
    decreases gs.len(),
{
    if k == 0 {
        true
    } else if gs.len() == 0 {
        false
    } else {
        let l = tokens_bytes(group_tokens(gs[0], cot)).len() as int;
        k >= l && at_group_boundary(k - l, gs.drop_first(), cot)
    }
}

proof fn lemma_scan_groups_prefix(v: ScanView, p: Seq<u8>, gs: Seq<GroupV>)
    requires
        scan_wf(v, p.len() as int),
        v.state == State::ScanDUI,
        forall|i: int| 0 <= i < gs.len() ==> group_ok(#[trigger] gs[i], v.asdh.spec_cot()),
        p.len() <= v.pos + tokens_bytes(groups_tokens(gs, v.asdh.spec_cot())).len(),
        p.subrange(v.pos, p.len() as int) == tokens_bytes(groups_tokens(gs, v.asdh.spec_cot())).subrange(
            0,
            p.len() - v.pos,
        ),
    ensures
        scan_all(v, p).1 == if at_group_boundary(p.len() - v.pos, gs, v.asdh.spec_cot()) {
            StepV::Eof
        } else {
            StepV::Short
        },
    decreases gs.len(),
{
    let cot = v.asdh.spec_cot();
    if p.len() == v.pos {
    } else {
        assert(gs.len() > 0) by {
            if gs.len() == 0 {
                assert(tokens_bytes(groups_tokens(gs, cot)) =~= Seq::<u8>::empty());
            }
        }
        let g0 = group_tokens(gs[0], cot);
        let rest = groups_tokens(gs.drop_first(), cot);
        lemma_tokens_bytes_append(g0, rest);
        let l = tokens_bytes(g0).len() as int;
        if p.len() - v.pos < l {
            assert(tokens_bytes(g0) + tokens_bytes(rest) == tokens_bytes(groups_tokens(gs, cot)));
            assert(p.subrange(v.pos, p.len() as int) =~= tokens_bytes(g0).subrange(0, p.len() - v.pos));
            lemma_scan_group_cut(v, p, gs[0]);
        } else {
            lemma_cut_bytes(p, v.pos, tokens_bytes(g0), tokens_bytes(rest));
            lemma_scan_group(v, p, gs[0]);
            let w = choose|w: ScanView|
                {
                    &&& w.state == State::ScanDUI
                    &&& w.asdh == v.asdh
                    &&& w.pos == v.pos + tokens_bytes(group_tokens(gs[0], v.asdh.spec_cot())).len()
                    &&& scan_wf(w, p.len() as int)
                    &&& #[trigger] scan_all(v, p) == (group_tokens(gs[0], v.asdh.spec_cot()) + scan_all(w, p).0, scan_all(w, p).1)
                };
            assert forall|i: int| 0 <= i < gs.drop_first().len() implies group_ok(#[trigger] gs.drop_first()[i], w.asdh.spec_cot()) by {
                assert(gs.drop_first()[i] == gs[i + 1]);
            }
            lemma_scan_groups_prefix(w, p, gs.drop_first());
        }
    }
}

/// Scanner termination: a buffer that holds the first `k` bytes of a
/// packet written as an ASDH and well-formed groups scans to the packet's
/// clean end where `k` falls after the ASDH on a group boundary, and to
/// `ShortRead` anywhere else (as `scan_packet` reports it).
pub proof fn lemma_prefix_termination(asdh: ASDH, gs: Seq<GroupV>, k: int)
    requires
        forall|i: int| 0 <= i < gs.len() ==> group_ok(#[trigger] gs[i], asdh.spec_cot()),
        0 <= k <= tokens_bytes(packet_tokens(asdh, gs)).len(),
    ensures
        scan_all(scan_start(), tokens_bytes(packet_tokens(asdh, gs)).subrange(0, k)).1 == if k >= 2
            && at_group_boundary(k - 2, gs, asdh.spec_cot()) {
            StepV::Eof
        } else {
            StepV::Short
        },
{
    let cot = asdh.spec_cot();
    let head = seq![TokenV::ASDH(asdh)];
    let rest = groups_tokens(gs, cot);
    let full = tokens_bytes(packet_tokens(asdh, gs));
    lemma_tokens_bytes_append(head, rest);
    lemma_tokens_bytes_single(TokenV::ASDH(asdh));
    assert(full == asdh_bytes(asdh) + tokens_bytes(rest));
    let p = full.subrange(0, k);
    let v = scan_start();
    if k >= 2 {
        assert(p[0] == asdh.ca && p[1] == asdh.cot_pn);
        let (n, o) = scan_step(v, p);
        assert(o == StepV::Token(TokenV::ASDH(asdh)));
        assert(p.subrange(2, p.len() as int) =~= tokens_bytes(rest).subrange(0, k - 2));
        lemma_scan_groups_prefix(n, p, gs);
    }
}

/// A DUI whose element count N is zero makes the scanner report an invalid
/// packet.
pub proof fn lemma_zero_count_invalid(v: ScanView, p: Seq<u8>)
    requires
        scan_wf(v, p.len() as int),
        v.state == State::ScanDUI,
        v.pos + 2 <= p.len(),
        p[v.pos + 1] % 16 == 0,
    ensures
        scan_step(v, p).1 == StepV::Invalid,
{
}

/// An element of a type identifier that is not decoded comes out as a
/// token, and an element that matches it is `Unknown` with its raw bytes;
/// the scan goes on.
pub proof fn lemma_unknown_type(v: ScanView, p: Seq<u8>, ie: IE)
    requires
        scan_wf(v, p.len() as int),
        v.state == State::ScanIE,
        !is_decoded_ti(v.dui.ti.raw),
        v.pos + ie_size(v.dui.ti.raw) <= p.len(),
        token_matches(Token::IE(ie), scan_step(v, p).1->Token_0),
    ensures
        scan_step(v, p).1 == StepV::Token(
            TokenV::IE(v.dui.ti.raw, p.subrange(v.pos, v.pos + ie_size(v.dui.ti.raw))),
        ),
        ie is Unknown,
        ie->Unknown_0@ == p.subrange(v.pos, v.pos + ie_size(v.dui.ti.raw)),
{
}

} // verus!
