//! Decisions of the daemon's processes: what the persistor writes for an
//! information object, the request and the response match of the periodic
//! scan, and the firmware-update action for a node.
#![allow(non_camel_case_types)]

use vstd::prelude::*;

use crate::connection::{IOBMessage, Message, prm_message};
use crate::fw_index::FirmwareIndex;
use crate::fwu_state_table::{FWUStateTable, Goal};
use crate::image_header::FWVersion;
use crate::node_table::{Event, NodeMap, NodeRecord, NodeTable};
use crate::packet::PtNetPacket;
use crate::scanner::IOB;
use crate::wire::{
    ASDH, BIT_PRM, COT, COT_DEACT, COT_REQ, DUI, FC, FC_PRM_SEND_NOREPLY, IE, M_DEV_DC, M_DEV_ST, NodeAddress, TC_C_FW_IU,
    TC_C_RD, address_eq,
};

verus! {

/// Common address of the ASDUs that carry device information.
pub const CA_DEVICE: u8 = 0x3E;
/// IOA of the device status.
pub const IOA_DEVICE_STATUS: u8 = 1;
/// IOA of the device descriptor.
pub const IOA_DEVICE_DESCRIPTOR: u8 = 2;

/// What the persistor does with an information object.
pub enum PersistKind {
    Status(M_DEV_ST),
    Descriptor(M_DEV_DC),
    Ignore,
}

pub open spec fn persist_kind(iob: IOB) -> PersistKind {
    if iob.asdh.ca != CA_DEVICE {
        PersistKind::Ignore
    } else if iob.ioa == IOA_DEVICE_STATUS {
        match iob.ie {
            IE::TI232(x) => PersistKind::Status(x),
            _ => PersistKind::Ignore,
        }
    } else if iob.ioa == IOA_DEVICE_DESCRIPTOR {
        match iob.ie {
            IE::TI233(x) => PersistKind::Descriptor(x),
            _ => PersistKind::Ignore,
        }
    } else {
        PersistKind::Ignore
    }
}

/// The record that the persistor writes: the current record of the address
/// (or a new one) with the one field set.
pub open spec fn persisted(m: NodeMap, address: NodeAddress, kind: PersistKind) -> NodeRecord {
    let k = address@;
    let status = if m.dom().contains(k) { m[k].device_status } else { None };
    let descriptor = if m.dom().contains(k) { m[k].device_descriptor } else { None };
    match kind {
        PersistKind::Status(x) => NodeRecord {
            address,
            device_status: Some(x),
            device_descriptor: descriptor,
        },
        PersistKind::Descriptor(x) => NodeRecord {
            address,
            device_status: status,
            device_descriptor: Some(x),
        },
        PersistKind::Ignore => NodeRecord { address, device_status: status, device_descriptor: descriptor },
    }
}

/// Stores what an information object tells of its node: a device status
/// (IOA 1, TI232) or a device descriptor (IOA 2, TI233) under the common
/// address 0x3E; a node without a record gets one. Gives the event of the
/// write.
pub fn persist_iob(table: &mut NodeTable, msg: &IOBMessage) -> (r: Option<Event>)
    requires
        old(table).wf(),
    ensures
        final(table).wf(),
        persist_kind(msg.iob) is Ignore ==> r is None && final(table)@ == old(table)@,
        !(persist_kind(msg.iob) is Ignore) ==> {
            let k = msg.message.header.address@;
            let rec = persisted(old(table)@, msg.message.header.address, persist_kind(msg.iob));
            &&& r is Some
            &&& r->Some_0.record() == rec
            &&& final(table)@ == old(table)@.insert(k, rec)
            &&& (r->Some_0 is NodeAdded <==> !old(table)@.dom().contains(k))
        },
{
    let iob = &msg.iob;
    let a = msg.message.header.address;
    if iob.asdh.ca != CA_DEVICE {
        return None;
    }
    if iob.ioa == IOA_DEVICE_STATUS {
        match &iob.ie {
            IE::TI232(x) => {
                let x = *x;
                let f = move |o: Option<NodeRecord>| -> (n: Option<NodeRecord>)
                    ensures
                        n == Some(
                            NodeRecord {
                                address: a,
                                device_status: Some(x),
                                device_descriptor: match o {
                                    Some(rec) => rec.device_descriptor,
                                    None => None,
                                },
                            },
                        ),
                    {
                        let descriptor = match o {
                            Some(rec) => rec.device_descriptor,
                            None => None,
                        };
                        Some(NodeRecord { address: a, device_status: Some(x), device_descriptor: descriptor })
                    };
                table.modify(&a, f)
            },
            _ => None,
        }
    } else if iob.ioa == IOA_DEVICE_DESCRIPTOR {
        match &iob.ie {
            IE::TI233(x) => {
                let x = *x;
                let f = move |o: Option<NodeRecord>| -> (n: Option<NodeRecord>)
                    ensures
                        n == Some(
                            NodeRecord {
                                address: a,
                                device_status: match o {
                                    Some(rec) => rec.device_status,
                                    None => None,
                                },
                                device_descriptor: Some(x),
                            },
                        ),
                    {
                        let status = match o {
                            Some(rec) => rec.device_status,
                            None => None,
                        };
                        Some(NodeRecord { address: a, device_status: status, device_descriptor: Some(x) })
                    };
                table.modify(&a, f)
            },
            _ => None,
        }
    } else {
        None
    }
}

/// The payload of the scan request: ASDH (0x3E, REQ), DUI (read command,
/// one element), IOA 0.
pub open spec fn scan_request_payload() -> Seq<u8> {
    seq![CA_DEVICE, COT_REQ, TC_C_RD, 1u8, 0u8]
}

/// The read request that the periodic scan sends to `node`: a primary
/// SendNoreply message.
pub fn scan_request(node: &NodeAddress) -> (r: Message)
    ensures
        r.payload@ == scan_request_payload(),
        r.header.address == *node,
        r.header.spec_prm(),
        r.header.spec_fc() == Some(FC::PrmSendNoreply),
        r.header.c == BIT_PRM + FC_PRM_SEND_NOREPLY,
        r.port == crate::connection::PORT_AUTO,
{
    let mut p = PtNetPacket::with_asdh(&ASDH::with(CA_DEVICE, COT::REQ, false));
    p.begin_asdu(&DUI::with_direct(TC_C_RD, 1, false));
    p.add_ioa(0);
    p.end_asdu();
    let payload = p.to_buffer();
    proof {
        assert(payload@ =~= scan_request_payload());
    }
    prm_message(FC::PrmSendNoreply, node, payload)
}

/// Whether `rsp` answers the scan of `node`: from the node's address, under
/// ASDH (0x3E, REQ, P/N clear), at IOA 1, with a device status element.
pub fn match_rsp_ti232(rsp: &IOBMessage, node: &NodeRecord) -> (r: bool)
    ensures
        r == (rsp.message.header.address@ == node.address@ && rsp.iob.asdh == (ASDH {
            ca: CA_DEVICE,
            cot_pn: COT_REQ,
        }) && rsp.iob.ioa == IOA_DEVICE_STATUS && rsp.iob.ie is TI232),
{
    if !address_eq(&rsp.message.header.address, &node.address) {
        return false;
    }
    let want = ASDH::with(CA_DEVICE, COT::REQ, false);
    if rsp.iob.asdh.ca == want.ca && rsp.iob.asdh.cot_pn == want.cot_pn && rsp.iob.ioa == IOA_DEVICE_STATUS {
        match rsp.iob.ie {
            IE::TI232(_) => true,
            _ => false,
        }
    } else {
        false
    }
}

/// Firmware state reported by a node.
#[derive(Clone, Copy, Debug, PartialEq, Eq, Structural)]
pub enum FW_State_A {
    Idle,
    Download,
    Flashing,
    Updated,
}

pub open spec fn fw_state_of(v: u8) -> Option<FW_State_A> {
    if v == 0 {
        Some(FW_State_A::Idle)
    } else if v == 1 {
        Some(FW_State_A::Download)
    } else if v == 2 {
        Some(FW_State_A::Flashing)
    } else if v == 3 {
        Some(FW_State_A::Updated)
    } else {
        None
    }
}

impl FW_State_A {
    pub fn try_from(v: u8) -> (r: Option<FW_State_A>)
        ensures
            r == fw_state_of(v),
    {
        match v {
            0 => Some(FW_State_A::Idle),
            1 => Some(FW_State_A::Download),
            2 => Some(FW_State_A::Flashing),
            3 => Some(FW_State_A::Updated),
            _ => None,
        }
    }
}

/// What the firmware-update process does for a node.
#[derive(Clone, Copy, Debug, PartialEq, Eq, Structural)]
pub enum FwuAction {
    /// Nothing to do.
    Nothing,
    /// A newer firmware is available: advise it.
    AdviseNewer(FWVersion),
    /// An update is in progress without a goal: cancel it.
    CancelUpdate,
    /// The node reports a firmware state that has no meaning.
    InvalidState(u8),
    /// A goal whose handling is not defined.
    Reserved,
}

/// The action for a node with `goal`, device status `status`, and `latest`
/// the newest firmware held for its hardware.
pub open spec fn fwu_action_spec(goal: Goal, status: Option<M_DEV_ST>, latest: Option<FWVersion>) -> FwuAction {
    match status {
        None => FwuAction::Nothing,
        Some(st) => match fw_state_of(st.fw_state) {
            None => FwuAction::InvalidState(st.fw_state),
            Some(state) => match goal {
                Goal::NoGoal => match state {
                    FW_State_A::Idle => match latest {
                        Some(v) => if st.fw_version.spec_lt(v) {
                            FwuAction::AdviseNewer(v)
                        } else {
                            FwuAction::Nothing
                        },
                        None => FwuAction::Nothing,
                    },
                    _ => FwuAction::CancelUpdate,
                },
                _ => FwuAction::Reserved,
            },
        },
    }
}

pub fn fwu_action(goal: Goal, status: Option<M_DEV_ST>, latest: Option<FWVersion>) -> (r: FwuAction)
    ensures
        r == fwu_action_spec(goal, status, latest),
{
    match status {
        None => FwuAction::Nothing,
        Some(st) => match FW_State_A::try_from(st.fw_state) {
            None => FwuAction::InvalidState(st.fw_state),
            Some(state) => match goal {
                Goal::NoGoal => match state {
                    FW_State_A::Idle => match latest {
                        Some(v) => if st.fw_version.lt(&v) {
                            FwuAction::AdviseNewer(v)
                        } else {
                            FwuAction::Nothing
                        },
                        None => FwuAction::Nothing,
                    },
                    _ => FwuAction::CancelUpdate,
                },
                _ => FwuAction::Reserved,
            },
        },
    }
}

/// The payload of the cancel command: ASDH (0x3E, DEACT), DUI (firmware
/// update command, one element), IOA 0.
pub open spec fn cancel_payload() -> Seq<u8> {
    seq![CA_DEVICE, COT_DEACT, TC_C_FW_IU, 1u8, 0u8]
}

/// The command that cancels a firmware update on `node`: a primary
/// SendNoreply message.
pub fn cancel_request(node: &NodeAddress) -> (r: Message)
    ensures
        r.payload@ == cancel_payload(),
        r.header.address == *node,
        r.header.spec_prm(),
        r.header.spec_fc() == Some(FC::PrmSendNoreply),
        r.header.c == BIT_PRM + FC_PRM_SEND_NOREPLY,
        r.port == crate::connection::PORT_AUTO,
{
    let mut p = PtNetPacket::with_asdh(&ASDH::with(CA_DEVICE, COT::DEACT, false));
    p.begin_asdu(&DUI::with_direct(TC_C_FW_IU, 1, false));
    p.add_ioa(0);
    p.end_asdu();
    let payload = p.to_buffer();
    proof {
        assert(payload@ =~= cancel_payload());
    }
    prm_message(FC::PrmSendNoreply, node, payload)
}

/// The firmware-update step for a node of the catalogue: takes (creating
/// it if needed) the node's goal, looks up the newest firmware for its
/// hardware, and decides.
pub fn process_node(goals: &mut FWUStateTable, index: &FirmwareIndex, node: &NodeRecord) -> (r: FwuAction)
    requires
        old(goals).wf(),
        index.wf(),
    ensures
        final(goals).wf(),
        old(goals)@.dom().contains(node.address@) ==> final(goals)@ == old(goals)@,
        !old(goals)@.dom().contains(node.address@) ==> final(goals)@.dom().contains(node.address@)
            && final(goals)@[node.address@].goal == Goal::NoGoal,
        node.device_status is None ==> r == FwuAction::Nothing,
        node.device_status is Some ==> exists|latest: Option<FWVersion>|
            r == fwu_action_spec(final(goals)@[node.address@].goal, node.device_status, latest)
                && (latest is None <==> !exists|i: int|
                0 <= i < index@.len() && #[trigger] index@[i].hw()
                    == node.device_status->Some_0.hw_version)
                && (latest is Some ==> exists|i: int|
                0 <= i < index@.len() && #[trigger] index@[i].hw()
                    == node.device_status->Some_0.hw_version && index@[i].fw() == latest->Some_0)
                && (latest is Some ==> forall|i: int|
                0 <= i < index@.len() && #[trigger] index@[i].hw()
                    == node.device_status->Some_0.hw_version ==> !latest->Some_0.spec_lt(index@[i].fw())),
{
    let state = goals.get_or_create_for(&node.address);
    match node.device_status {
        None => FwuAction::Nothing,
        Some(st) => {
            let latest = index.latest_for(&st.hw_version);
            fwu_action(state.goal, node.device_status, latest)
        },
    }
}

/// Where the scan of one node stands.
#[derive(Clone, Copy, Debug, PartialEq, Eq, Structural)]
pub enum ScanPhase {
    /// The request is written; its delivery result is awaited.
    AwaitResult,
    /// The request is delivered; the node's answer is awaited.
    AwaitResponse,
    /// The node answered.
    Answered,
    /// No answer came in time; the node is skipped.
    TimedOut,
}

/// What happens during the scan of one node.
pub enum ScanEvent {
    /// The gateway's delivery result for the request.
    Result(u16),
    /// An information object arrived.
    Response(IOBMessage),
    /// The response wait (5 s) elapsed.
    Timeout,
}

/// The next phase of the scan of `node` after `ev`.
pub open spec fn scan_next(phase: ScanPhase, node: NodeRecord, ev: ScanEvent) -> ScanPhase {
    match phase {
        ScanPhase::AwaitResult => match ev {
            ScanEvent::Result(_) => ScanPhase::AwaitResponse,
            _ => ScanPhase::AwaitResult,
        },
        ScanPhase::AwaitResponse => match ev {
            ScanEvent::Response(rsp) => if rsp.message.header.address@ == node.address@
                && rsp.iob.asdh == (ASDH { ca: CA_DEVICE, cot_pn: COT_REQ })
                && rsp.iob.ioa == IOA_DEVICE_STATUS && rsp.iob.ie is TI232 {
                ScanPhase::Answered
            } else {
                ScanPhase::AwaitResponse
            },
            ScanEvent::Timeout => ScanPhase::TimedOut,
            _ => ScanPhase::AwaitResponse,
        },
        _ => phase,
    }
}

/// One decision of the node scan: the phase after `ev`. The scan of a node
/// ends in `Answered` or `TimedOut`.
pub fn scan_on_event(phase: ScanPhase, node: &NodeRecord, ev: &ScanEvent) -> (r: ScanPhase)
    ensures
        r == scan_next(phase, *node, *ev),
{
    match phase {
        ScanPhase::AwaitResult => match ev {
            ScanEvent::Result(_) => ScanPhase::AwaitResponse,
            _ => ScanPhase::AwaitResult,
        },
        ScanPhase::AwaitResponse => match ev {
            ScanEvent::Response(rsp) => if match_rsp_ti232(rsp, node) {
                ScanPhase::Answered
            } else {
                ScanPhase::AwaitResponse
            },
            ScanEvent::Timeout => ScanPhase::TimedOut,
            _ => ScanPhase::AwaitResponse,
        },
        _ => phase,
    }
}

} // verus!
