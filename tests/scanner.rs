use ptnet::scanner::{collect_iobs, scan_packet, Error, Scanner, Token, IOB};
use ptnet::image_header::{FWVersion, HWVersion};
use ptnet::wire::{IEParseError, ASDH, COT, DUI, IE, M_DEV_ST, TI161, TI34};

const PKT1: &[u8] = &[
    10, 5, // ASDH
    161, 3, // DUI=TI161, 3x IOB
    100, // IOA=100
    0xEF, 0xBE, 0xED, 0xFE, 0x80, // 0xFEEDBEEF, QDS=IV
    110, // IOA=110
    0x67, 0x45, 0x23, 0x01, 0x00, // 0x01234567, QDS=0
    120, // IOA=120
    0x40, 0x30, 0x20, 0x10, 0xC0, // 0x10203040, QDS=IV|NT
];

const PKT2: &[u8] = &[
    0, 3, // ASDH
    34, 0x15, // DUI=TI34, SEQ(5)
    50, // IOA=50
    0x10, 0x20, 0x30, 0x40, 0x50, // TI34(10),TI34(20),TI34(30),TI34(40),TI34(50),
];

fn pkt1_exp_from_ioa() -> Vec<Token> {
    vec![
        Token::IOA(100),
        Token::IE(IE::TI161(TI161 { value: 0xFEEDBEEF, qds: 0x80 })),
        Token::IOA(110),
        Token::IE(IE::TI161(TI161 { value: 0x01234567, qds: 0x00 })),
        Token::IOA(120),
        Token::IE(IE::TI161(TI161 { value: 0x10203040, qds: 0xC0 })),
    ]
}

fn pkt2_exp_from_ioa() -> Vec<Token> {
    vec![
        Token::IOA(50),
        Token::IE(IE::TI34(TI34 { value: 0x10 })),
        Token::IE(IE::TI34(TI34 { value: 0x20 })),
        Token::IE(IE::TI34(TI34 { value: 0x30 })),
        Token::IE(IE::TI34(TI34 { value: 0x40 })),
        Token::IE(IE::TI34(TI34 { value: 0x50 })),
    ]
}

fn two_groups() -> Vec<u8> {
    PKT1.iter().chain(PKT2[2..].iter()).map(|e| *e).collect::<Vec<u8>>()
}

#[test]
fn scanner_it_parse_3x_161_no_sq() {
    let mut exp = vec![
        Token::ASDH(ASDH::with(10, COT::REQ, false)),
        Token::DUI(DUI::with_direct(161, 3, false)),
    ];
    exp.extend(pkt1_exp_from_ioa());
    let mut scanner = Scanner::new(PKT1);
    for tok in exp.iter() {
        let next_token = scanner.next_token().unwrap();
        assert_eq!(next_token, *tok);
    }
    assert_eq!(scanner.next_token(), Result::Err(Error::EOF));
}

#[test]
fn scanner_it_parse_5x_34_sq() {
    let mut exp = vec![
        Token::ASDH(ASDH::with(0, COT::SPONT, false)),
        Token::DUI(DUI::with_direct(34, 5, true)),
    ];
    exp.extend(pkt2_exp_from_ioa());
    let mut scanner = Scanner::new(PKT2);
    for tok in exp.iter() {
        let next_token = scanner.next_token().unwrap();
        assert_eq!(next_token, *tok);
    }
    assert_eq!(scanner.next_token(), Result::Err(Error::EOF));
}

#[test]
fn scanner_it_parse_2_dui() {
    let mut exp = vec![
        Token::ASDH(ASDH::with(10, COT::REQ, false)),
        Token::DUI(DUI::with_direct(161, 3, false)),
    ];
    exp.extend(pkt1_exp_from_ioa());
    exp.push(Token::DUI(DUI::with_direct(34, 5, true)));
    exp.extend(pkt2_exp_from_ioa());
    let pkt = two_groups();
    let mut scanner = Scanner::new(&pkt[..]);
    for tok in exp.iter() {
        let next_token = scanner.next_token().unwrap();
        assert_eq!(next_token, *tok);
    }
    assert_eq!(scanner.next_token(), Result::Err(Error::EOF));
}

#[test]
fn it_parse_iterator() {
    let mut iter_exp = vec![
        Token::ASDH(ASDH::with(10, COT::REQ, false)),
        Token::DUI(DUI::with_direct(161, 3, false)),
    ];
    iter_exp.extend(pkt1_exp_from_ioa());
    let mut it = Scanner::new(PKT1).into_iter();
    let mut iter_scn: Vec<Token> = Vec::new();
    while let Some(res) = it.next() {
        iter_scn.push(res.unwrap());
    }
    assert_eq!(iter_exp, iter_scn);
}

fn iob(asdh: ASDH, dui: DUI, ie: IE, ioa: u8) -> IOB {
    IOB { asdh, dui, ie, ioa }
}

#[test]
fn it_parse_iob_iterator() {
    let a = ASDH::with(10, COT::REQ, false);
    let d1 = DUI::with_direct(161, 3, false);
    let d2 = DUI::with_direct(34, 5, true);
    let iter_exp: Vec<IOB> = vec![
        iob(a, d1, IE::TI161(TI161 { value: 0xFEEDBEEF, qds: 0x80 }), 100),
        iob(a, d1, IE::TI161(TI161 { value: 0x01234567, qds: 0x00 }), 110),
        iob(a, d1, IE::TI161(TI161 { value: 0x10203040, qds: 0xC0 }), 120),
        iob(a, d2, IE::TI34(TI34 { value: 0x10 }), 50),
        iob(a, d2, IE::TI34(TI34 { value: 0x20 }), 51),
        iob(a, d2, IE::TI34(TI34 { value: 0x30 }), 52),
        iob(a, d2, IE::TI34(TI34 { value: 0x40 }), 53),
        iob(a, d2, IE::TI34(TI34 { value: 0x50 }), 54),
    ];
    let pkt = two_groups();
    let mut it = Scanner::new(&pkt[..]).into_iob_iter();
    let mut iter_scn: Vec<IOB> = Vec::new();
    while let Some(res) = it.next() {
        iter_scn.push(res.unwrap());
    }
    assert_eq!(iter_exp, iter_scn);
}

#[test]
fn sq_packet_yields_consecutive_ioas() {
    let iobs = collect_iobs(PKT2);
    let ioas: Vec<u8> = iobs.iter().map(|i| i.ioa).collect();
    assert_eq!(ioas, vec![50, 51, 52, 53, 54]);
    let values: Vec<IE> = iobs.iter().map(|i| i.ie.clone()).collect();
    assert_eq!(values[4], IE::TI34(TI34 { value: 0x50 }));
}

#[test]
fn zero_count_is_invalid_packet() {
    let pkt: &[u8] = &[10, 5, 161, 0x00, 100];
    let mut scanner = Scanner::new(pkt);
    assert!(scanner.next_token().is_ok());
    assert!(matches!(scanner.next_token(), Err(Error::InvalidPacket(_))));
}

#[test]
fn unknown_type_gives_raw_bytes() {
    // TI 0x45: width 2, a type that is not decoded
    let pkt: &[u8] = &[10, 5, 0x45, 1, 7, 0xAB, 0xCD];
    let mut scanner = Scanner::new(pkt);
    scanner.next_token().unwrap();
    scanner.next_token().unwrap();
    assert_eq!(scanner.next_token().unwrap(), Token::IOA(7));
    assert_eq!(scanner.next_token().unwrap(), Token::IE(IE::Unknown(vec![0xAB, 0xCD])));
    assert_eq!(scanner.next_token(), Err(Error::EOF));
}

#[test]
fn truncated_group_is_short_read() {
    for cut in [0usize, 1, 3, 4, 5, 9, 21] {
        let mut scanner = Scanner::new(&PKT1[..cut]);
        let mut last = scanner.next_token();
        let mut steps = 0;
        while last.is_ok() && steps < 64 {
            last = scanner.next_token();
            steps += 1;
        }
        assert_eq!(last, Err(Error::ShortRead), "cut at {}", cut);
    }
    // at a group boundary the packet ends cleanly
    for cut in [2usize, PKT1.len()] {
        let mut scanner = Scanner::new(&PKT1[..cut]);
        let mut last = scanner.next_token();
        while last.is_ok() {
            last = scanner.next_token();
        }
        assert_eq!(last, Err(Error::EOF), "cut at {}", cut);
    }
}

#[test]
fn scanner_restarts_on_same_bytes() {
    let mut a = Scanner::new(PKT1);
    a.next_token().unwrap();
    a.next_token().unwrap();
    let mut b = Scanner::new(PKT1);
    assert_eq!(b.next_token().unwrap(), Token::ASDH(ASDH::with(10, COT::REQ, false)));
}

#[test]
fn iob_without_asdh_is_impossible_but_cot_without_ie_skips_elements() {
    // COT 44 (unknown type): the IOA carries no element
    let pkt: &[u8] = &[10, 44, 161, 1, 9];
    let mut scanner = Scanner::new(pkt);
    scanner.next_token().unwrap();
    scanner.next_token().unwrap();
    assert_eq!(scanner.next_token().unwrap(), Token::IOA(9));
    assert_eq!(scanner.next_token(), Err(Error::EOF));
    assert!(collect_iobs(pkt).is_empty());
}

#[test]
fn element_decoding() {
    assert_eq!(IE::try_from(161, &[1, 2]), Err(IEParseError::BufferTooShort));
    // a type that is not decoded keeps the whole buffer, whatever its length
    assert_eq!(IE::try_from(0, &[1]), Ok(IE::Unknown(vec![1])));
    assert_eq!(IE::try_from(0x45, &[1, 2, 3]), Ok(IE::Unknown(vec![1, 2, 3])));
    assert_eq!(IE::try_from(161, &[1, 0, 0, 0, 9, 77]), Ok(IE::TI161(TI161 { value: 1, qds: 9 })));
    assert_eq!(
        IE::try_from(232, &[2, 1, 2, 3, 0x80, 0x86, 0x11]),
        Ok(IE::TI232(M_DEV_ST {
            fw_state: 2,
            fw_version: FWVersion { major: 1, minor: 2, patch: 3 },
            hw_version: HWVersion { vid: 0x80, pid: 0x86, rev: 0x11 },
        }))
    );
}

#[test]
fn whole_packet_scan() {
    let (tokens, end) = scan_packet(PKT1);
    assert_eq!(tokens.len(), 8);
    assert_eq!(tokens[7], Token::IE(IE::TI161(TI161 { value: 0x10203040, qds: 0xC0 })));
    assert_eq!(end, Error::EOF);
    let (tokens, end) = scan_packet(&PKT1[..7]);
    assert_eq!(tokens.len(), 3);
    assert_eq!(end, Error::ShortRead);
}
