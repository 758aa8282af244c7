//! The correlation engine: id assignment, pending-table discipline,
//! response routing, violations, and disconnect cancellation.

use oxretro::adapter::AdapterState;
use oxretro::adapter::InboundRoute;
use oxretro::messages::ProtocolMessage;
use oxretro::messages::ProtocolMessageType;
use oxretro::retro_types::RetroAvInfo;
use oxretro::retro_types::RetroSystemInfo;

fn sample_system_info() -> RetroSystemInfo {
    RetroSystemInfo {
        library_name: "TestCore".to_string(),
        library_version: "1.0".to_string(),
        valid_extensions: vec!["gba".to_string()],
        need_fullpath: false,
        block_extract: false,
    }
}

#[test]
fn fresh_ids_are_strictly_increasing() {
    let mut adapter = AdapterState::new();
    let first = adapter.route_outbound(ProtocolMessageType::Init, None);
    let second = adapter.route_outbound(ProtocolMessageType::SystemInfo, None);
    let third = adapter.route_outbound(ProtocolMessageType::Run, None);
    assert_eq!(first.id, 0);
    assert_eq!(second.id, 1);
    assert_eq!(third.id, 2);
}

#[test]
fn only_blocking_sends_register_waiters() {
    let mut adapter = AdapterState::new();
    adapter.route_outbound(ProtocolMessageType::Init, None);
    assert_eq!(adapter.pending_len(), 0);
    let request = adapter.route_outbound(ProtocolMessageType::SystemInfo, None);
    assert_eq!(adapter.pending_len(), 1);
    assert!(adapter.is_pending(request.id));
}

#[test]
fn system_info_round_trip_clears_the_table() {
    // The frontend asks for system info; the backend's reply resolves the
    // waiter and leaves the id absent from the pending table.
    let mut adapter = AdapterState::new();
    let request = adapter.route_outbound(ProtocolMessageType::SystemInfo, None);
    assert!(request.data.is_blocking());
    let response = ProtocolMessage {
        id: request.id,
        data: ProtocolMessageType::SystemInfoResponse(sample_system_info()),
    };
    assert_eq!(adapter.route_inbound(&response), InboundRoute::Response);
    assert!(!adapter.is_pending(request.id));
    assert_eq!(adapter.pending_len(), 0);
}

#[test]
fn a_second_response_with_the_same_id_is_dropped() {
    let mut adapter = AdapterState::new();
    let request = adapter.route_outbound(ProtocolMessageType::Run, None);
    let response = ProtocolMessage { id: request.id, data: ProtocolMessageType::RunResponse };
    assert_eq!(adapter.route_inbound(&response), InboundRoute::Response);
    assert_eq!(adapter.route_inbound(&response), InboundRoute::Violation);
}

#[test]
fn a_response_to_an_unissued_id_is_dropped() {
    let mut adapter = AdapterState::new();
    adapter.route_outbound(ProtocolMessageType::Run, None);
    let foreign = ProtocolMessage { id: 999, data: ProtocolMessageType::RunResponse };
    assert_eq!(adapter.route_inbound(&foreign), InboundRoute::Violation);
}

#[test]
fn a_response_of_the_wrong_tag_is_dropped() {
    let mut adapter = AdapterState::new();
    let request = adapter.route_outbound(ProtocolMessageType::Run, None);
    let wrong = ProtocolMessage {
        id: request.id,
        data: ProtocolMessageType::APIVersionResponse(1),
    };
    assert_eq!(adapter.route_inbound(&wrong), InboundRoute::Violation);
    // The waiter stays registered for the real response.
    assert!(adapter.is_pending(request.id));
    let right = ProtocolMessage { id: request.id, data: ProtocolMessageType::RunResponse };
    assert_eq!(adapter.route_inbound(&right), InboundRoute::Response);
}

#[test]
fn fresh_requests_are_events() {
    let mut adapter = AdapterState::new();
    let incoming = ProtocolMessage { id: 5, data: ProtocolMessageType::SystemInfo };
    assert_eq!(adapter.route_inbound(&incoming), InboundRoute::Event);
    let refresh = ProtocolMessage { id: 6, data: ProtocolMessageType::PollInput };
    assert_eq!(adapter.route_inbound(&refresh), InboundRoute::Event);
}

#[test]
fn a_response_arriving_immediately_after_send_finds_its_waiter() {
    // The waiter is registered before the packet is handed to the
    // encoder, so even the fastest response finds it.
    let mut adapter = AdapterState::new();
    let request = adapter.route_outbound(
        ProtocolMessageType::InputState { port: 0, device: 1, index: 0, id: 4 },
        None,
    );
    assert!(adapter.is_pending(request.id));
    let response = ProtocolMessage {
        id: request.id,
        data: ProtocolMessageType::InputResponse(1),
    };
    assert_eq!(adapter.route_inbound(&response), InboundRoute::Response);
}

#[test]
fn replies_reuse_the_originator_id_and_register_nothing() {
    let mut adapter = AdapterState::new();
    let reply = adapter.route_outbound(
        ProtocolMessageType::GetVariableResponse(None),
        Some(41),
    );
    assert_eq!(reply.id, 41);
    assert_eq!(adapter.pending_len(), 0);
    // The fresh-id counter did not move.
    let next = adapter.route_outbound(ProtocolMessageType::Init, None);
    assert_eq!(next.id, 0);
}

#[test]
fn nested_blocking_round_trip_empties_both_tables() {
    // The ticker's Run is outstanding while the core asks for input: the
    // input query is answered with the reused id, then the run completes.
    let mut frontend = AdapterState::new();
    let mut backend = AdapterState::new();

    let run = frontend.route_outbound(ProtocolMessageType::Run, None);
    assert_eq!(backend.route_inbound(&run), InboundRoute::Event);

    let input = backend.route_outbound(
        ProtocolMessageType::InputState { port: 0, device: 1, index: 0, id: 4 },
        None,
    );
    assert_eq!(frontend.route_inbound(&input), InboundRoute::Event);

    let input_reply = frontend.route_outbound(
        ProtocolMessageType::InputResponse(1),
        Some(input.id),
    );
    assert_eq!(input_reply.id, input.id);
    assert_eq!(backend.route_inbound(&input_reply), InboundRoute::Response);
    assert_eq!(backend.pending_len(), 0);

    let run_reply = backend.route_outbound(ProtocolMessageType::RunResponse, Some(run.id));
    assert_eq!(frontend.route_inbound(&run_reply), InboundRoute::Response);
    assert_eq!(frontend.pending_len(), 0);
}

#[test]
fn disconnect_drains_every_waiter() {
    let mut adapter = AdapterState::new();
    let a = adapter.route_outbound(ProtocolMessageType::Run, None);
    let b = adapter.route_outbound(ProtocolMessageType::AVInfo, None);
    adapter.route_outbound(ProtocolMessageType::Init, None);
    let drained = adapter.cancel_all();
    assert_eq!(drained.len(), 2);
    assert_eq!(drained[0].id, a.id);
    assert_eq!(drained[1].id, b.id);
    assert_eq!(adapter.pending_len(), 0);
    assert!(!adapter.is_pending(a.id));
    assert!(!adapter.is_pending(b.id));
    // A response arriving after the drain is a violation, not a delivery.
    let late = ProtocolMessage { id: a.id, data: ProtocolMessageType::RunResponse };
    assert_eq!(adapter.route_inbound(&late), InboundRoute::Violation);
}
