use ptnet::connection::{IOBMessage, MessageHeader, PORT_AUTO};
use ptnet::fw_index::FirmwareIndex;
use ptnet::fwu_state_table::{FWUStateTable, Goal};
use ptnet::image_header::{Container, FWVersion, HWVersion};
use ptnet::node_table::{Event, NodeRecord, NodeTable};
use ptnet::process::{
    cancel_request, fwu_action, match_rsp_ti232, persist_iob, process_node, scan_on_event, scan_request, FwuAction, ScanEvent,
    ScanPhase,
};
use ptnet::scanner::IOB;
use ptnet::wire::{Header, ASDH, COT, DUI, FC, IE, M_DEV_DC, M_DEV_ST, TI34};

const NODE: [u8; 6] = [0, 0, 0xAA, 0xBB, 0xCC, 0xDD];

fn status(fw_state: u8) -> M_DEV_ST {
    M_DEV_ST {
        fw_state,
        fw_version: FWVersion { major: 1, minor: 0, patch: 0 },
        hw_version: HWVersion { vid: 1, pid: 2, rev: 3 },
    }
}

fn iob_msg(ca: u8, ioa: u8, ie: IE) -> IOBMessage {
    IOBMessage {
        message: MessageHeader { port: PORT_AUTO, header: Header { c: 0x44, address: NODE } },
        iob: IOB { asdh: ASDH::with(ca, COT::REQ, false), dui: DUI::with_direct(232, 1, false), ioa, ie },
    }
}

#[test]
fn persist_creates_then_modifies() {
    let mut table = NodeTable::new();
    let ev = persist_iob(&mut table, &iob_msg(0x3E, 1, IE::TI232(status(0))));
    assert!(matches!(ev, Some(Event::NodeAdded(r)) if r.device_status == Some(status(0)) && r.address == NODE));
    let dc = M_DEV_DC { b: [1, 2, 3, 4, 5, 6, 7] };
    let ev = persist_iob(&mut table, &iob_msg(0x3E, 2, IE::TI233(dc)));
    assert!(matches!(ev, Some(Event::NodeModified(_))));
    let rec = table.get(&NODE).unwrap();
    assert_eq!(rec.device_status, Some(status(0)));
    assert_eq!(rec.device_descriptor, Some(dc));
    // other common addresses, IOAs and elements are ignored
    assert!(persist_iob(&mut table, &iob_msg(0x10, 1, IE::TI232(status(1)))).is_none());
    assert!(persist_iob(&mut table, &iob_msg(0x3E, 3, IE::TI232(status(1)))).is_none());
    assert!(persist_iob(&mut table, &iob_msg(0x3E, 1, IE::TI34(TI34 { value: 1 }))).is_none());
    assert_eq!(table.get(&NODE).unwrap().device_status, Some(status(0)));
}

#[test]
fn scan_request_and_match() {
    let msg = scan_request(&NODE);
    assert_eq!(msg.payload, vec![0x3E, 5, 25, 1, 0]);
    assert!(msg.header.prm());
    assert_eq!(msg.header.fc(), Some(FC::PrmSendNoreply));
    assert_eq!(msg.port, -1);
    assert_eq!(msg.header.c, 0x44);
    let node = NodeRecord::new(&NODE);
    assert!(match_rsp_ti232(&iob_msg(0x3E, 1, IE::TI232(status(0))), &node));
    assert!(!match_rsp_ti232(&iob_msg(0x3E, 2, IE::TI232(status(0))), &node));
    assert!(!match_rsp_ti232(&iob_msg(0x3E, 1, IE::TI34(TI34 { value: 0 })), &node));
    let other = NodeRecord::new(&[9; 6]);
    assert!(!match_rsp_ti232(&iob_msg(0x3E, 1, IE::TI232(status(0))), &other));
}

#[test]
fn fwu_decisions() {
    let newer = FWVersion { major: 1, minor: 1, patch: 0 };
    assert_eq!(fwu_action(Goal::NoGoal, None, Some(newer)), FwuAction::Nothing);
    assert_eq!(fwu_action(Goal::NoGoal, Some(status(0)), Some(newer)), FwuAction::AdviseNewer(newer));
    assert_eq!(fwu_action(Goal::NoGoal, Some(status(0)), Some(FWVersion { major: 1, minor: 0, patch: 0 })), FwuAction::Nothing);
    assert_eq!(fwu_action(Goal::NoGoal, Some(status(2)), None), FwuAction::CancelUpdate);
    assert_eq!(fwu_action(Goal::NoGoal, Some(status(7)), None), FwuAction::InvalidState(7));
    assert_eq!(fwu_action(Goal::KeepCurrent, Some(status(0)), None), FwuAction::Reserved);
    let cancel = cancel_request(&NODE);
    assert_eq!(cancel.payload, vec![0x3E, 8, 240, 1, 0]);
    assert_eq!(cancel.header.c, 0x44);
    assert_eq!(cancel.header.address, NODE);
}

#[test]
fn process_node_uses_index_and_creates_goal() {
    let mut goals = FWUStateTable::new();
    let mut index = FirmwareIndex::new();
    let hw = HWVersion { vid: 1, pid: 2, rev: 3 };
    let fw = FWVersion { major: 2, minor: 0, patch: 0 };
    let mut img = Container::for_payload(hw, fw, b"pp").to_bytes();
    img.extend_from_slice(b"pp");
    index.add_image(&img).unwrap();
    let mut node = NodeRecord::new(&NODE);
    assert_eq!(process_node(&mut goals, &index, &node), FwuAction::Nothing);
    node.device_status = Some(status(0));
    assert_eq!(process_node(&mut goals, &index, &node), FwuAction::AdviseNewer(fw));
    assert_eq!(goals.get_or_create_for(&NODE).goal, Goal::NoGoal);
}

#[test]
fn node_scan_phases() {
    let node = NodeRecord::new(&NODE);
    let waiting = scan_on_event(ScanPhase::AwaitResult, &node, &ScanEvent::Result(0));
    assert_eq!(waiting, ScanPhase::AwaitResponse);
    let still = scan_on_event(waiting, &node, &ScanEvent::Response(iob_msg(0x3E, 2, IE::TI232(status(0)))));
    assert_eq!(still, ScanPhase::AwaitResponse);
    assert_eq!(scan_on_event(still, &node, &ScanEvent::Response(iob_msg(0x3E, 1, IE::TI232(status(0))))), ScanPhase::Answered);
    // no responder: the wait ends and the loop goes on to the next node
    let mut table = NodeTable::new();
    table.update(&NODE, &node, ptnet::node_table::UpdateMode::MustCreate).unwrap();
    assert_eq!(scan_on_event(still, &node, &ScanEvent::Timeout), ScanPhase::TimedOut);
    assert_eq!(table.get(&NODE).unwrap(), node);
}
