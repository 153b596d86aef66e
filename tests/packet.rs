use ptnet::packet::PtNetPacket;
use ptnet::scanner::{Error, Scanner, Token};
use ptnet::wire::{ASDH, COT, DUI, IE, TC_C_RD, TC_M_ME_FP, TI131, TI161, TI25};

#[test]
fn it_build() {
    let mut packet = PtNetPacket::with_asdh(&ASDH::with(10, COT::SPONT, false));

    packet.begin_asdu(&DUI::with_direct(TC_C_RD, 1, false));
    packet.add_ioa(100);
    packet.add_ie(&IE::TI25(TI25::default()));
    packet.end_asdu();

    packet.begin_asdu(&DUI::with_direct(TC_M_ME_FP, 5, true));
    packet.add_ioa(200);
    packet.add_ie(&IE::TI131(TI131 { value: 3.4f32.to_bits() }));
    packet.add_ie(&IE::TI131(TI131 { value: 4.4f32.to_bits() }));
    packet.add_ie(&IE::TI131(TI131 { value: 5.4f32.to_bits() }));
    packet.add_ie(&IE::TI131(TI131 { value: 6.4f32.to_bits() }));
    packet.add_ie(&IE::TI131(TI131 { value: 7.4f32.to_bits() }));
    packet.end_asdu();

    let exp_packet: &[u8] = &[
        10, 3, // ASDH (CA,COT)
        25, 1, // DUI (TI,VSQ)
        100, // IOA
        131, 0x15, // DUI (TI,VSQ)
        200, // IOA
        0x9a, 0x99, 0x59, 0x40, // TI131 @ 200
        0xcd, 0xcc, 0x8c, 0x40, // TI131 @ 201
        0xcd, 0xcc, 0xac, 0x40, // TI131 @ 202
        0xcd, 0xcc, 0xcc, 0x40, // TI131 @ 203
        0xcd, 0xcc, 0xec, 0x40, // TI131 @ 204
    ];

    assert_eq!(packet.to_buffer().as_slice(), exp_packet);
}

#[test]
fn built_packet_scans_back() {
    let asdh = ASDH::with(7, COT::SPONT, true);
    let mut packet = PtNetPacket::with_asdh(&asdh);
    packet.begin_asdu(&DUI::with_direct(161, 2, false));
    packet.add_ioa(1);
    packet.add_ie(&IE::TI161(TI161 { value: 0xDEADBEEF, qds: 1 }));
    packet.add_ioa(2);
    packet.add_ie(&IE::TI161(TI161 { value: 5, qds: 0 }));
    packet.end_asdu();
    let bytes = packet.to_buffer();
    let mut s = Scanner::new(&bytes);
    assert_eq!(s.next_token().unwrap(), Token::ASDH(asdh));
    assert_eq!(s.next_token().unwrap(), Token::DUI(DUI::with_direct(161, 2, false)));
    assert_eq!(s.next_token().unwrap(), Token::IOA(1));
    assert_eq!(s.next_token().unwrap(), Token::IE(IE::TI161(TI161 { value: 0xDEADBEEF, qds: 1 })));
    assert_eq!(s.next_token().unwrap(), Token::IOA(2));
    assert_eq!(s.next_token().unwrap(), Token::IE(IE::TI161(TI161 { value: 5, qds: 0 })));
    assert_eq!(s.next_token(), Err(Error::EOF));
    assert!(asdh.pn());
    assert_eq!(asdh.cot(), 3);
}
