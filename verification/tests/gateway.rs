use jt808_gateway::config_model::ConfigModel;
use jt808_gateway::jt808_codec::{
    build_frame, escape_bytes, parse_frame, unescape_bytes, xor_sum_bytes, Jt808, Jt808CodecError,
    JtPackage,
};
use jt808_gateway::service_device::{init, SessionHandle};
use jt808_gateway::service_forward::ServiceForward;
use jt808_gateway::service_http::{decode_hex, http_route};
use jt808_gateway::session808::jt808_parse::{
    Jt808Deserialize, Jt808DeserializeAndPackUp, Jt808PackUp, JtSubMerger,
};
use jt808_gateway::session808::jt808_session::{Action, Jt808Session, Jt808SessionShared};
use jt808_gateway::session_forward::forward_item::ForwardItem;
use jt808_gateway::session_forward::forward_parse::{ForwardCodecError, ForwardParse, ReturnType};
use jt808_gateway::session_forward::forward_session::ForwardSession;

const SIM: u64 = 0x0138_0013_8000;

fn frag(id: u16, sn: u16, index: u16, total: u16, body: Vec<u8>) -> Jt808 {
    Jt808 { id, sim: SIM, sn, package_index: Some(index), package_total: Some(total), body }
}

fn single(id: u16, sn: u16, body: Vec<u8>) -> Jt808 {
    Jt808 { id, sim: SIM, sn, package_index: None, package_total: None, body }
}

/// Strips the markers of a full frame image and decodes it back into a
/// frame.
fn decode_frame_image(image: &[u8]) -> Jt808 {
    assert!(image.len() >= 2);
    assert_eq!(image[0], 0x7e);
    assert_eq!(image[image.len() - 1], 0x7e);
    let span: Vec<u8> = image[1..image.len() - 1].to_vec();
    let raw = unescape_bytes(&span).expect("bad escape");
    parse_frame(&raw).expect("bad header")
}

#[test]
fn test_bytes() {
}

#[test]
fn escape_round_trip_concrete() {
    let src = vec![0x7du8, 0x7e, 0x01, 0x00, 0xff];
    let escaped = escape_bytes(&src);
    assert_eq!(escaped, vec![0x7d, 0x01, 0x7d, 0x02, 0x01, 0x00, 0xff]);
    let back = unescape_bytes(&escaped).expect("round trip failed");
    assert_eq!(back, src);
}

#[test]
fn unescape_rejects_bad_pair() {
    assert!(unescape_bytes(&vec![0x7du8, 0x03]).is_none());
    assert!(unescape_bytes(&vec![0x00u8, 0x7d]).is_none());
}

#[test]
fn xor_sum_concrete() {
    assert_eq!(xor_sum_bytes(&vec![]), 0);
    assert_eq!(xor_sum_bytes(&vec![0x01u8, 0x02, 0x04]), 0x07);
}

#[test]
fn serialize_exact_bytes() {
    let mut package = JtPackage::new(SIM);
    package.distribute_sn(1);
    let frame = package.serialize(0x0102, &vec![]);
    assert_eq!(
        frame,
        vec![0x7e, 0x01, 0x02, 0x00, 0x00, 0x01, 0x38, 0x00, 0x13, 0x80, 0x00, 0x00, 0x01, 0xa8,
            0x7e]
    );
}

#[test]
fn build_frame_escapes_interior() {
    let frame = build_frame(0x0200, SIM, 0, None, &vec![0x7e, 0x7d]);
    // No bare marker or escape lead inside the image.
    for k in 1..frame.len() - 1 {
        assert_ne!(frame[k], 0x7e);
    }
    let jt = decode_frame_image(&frame);
    assert_eq!(jt.id, 0x0200);
    assert_eq!(jt.body, vec![0x7e, 0x7d]);
}

#[test]
fn framer_decodes_one_frame() {
    let mut package = JtPackage::new(SIM);
    let image = package.serialize(0x0100, &vec![0xaa, 0xbb]);
    let mut decoder = Jt808Deserialize::new();
    let mut buffer: Vec<u8> = Vec::new();
    buffer.extend_from_slice(&image[..5]);
    assert!(matches!(decoder.deserialize(&mut buffer), Ok(None)));
    buffer.extend_from_slice(&image[5..]);
    let jt = decoder.deserialize(&mut buffer).expect("framing error").expect("no frame");
    assert_eq!(jt.id, 0x0100);
    assert_eq!(jt.sim, SIM);
    assert_eq!(jt.sn, 0);
    assert_eq!(jt.body, vec![0xaa, 0xbb]);
    assert!(buffer.is_empty());
}

#[test]
fn framer_rejects_short_span() {
    let mut decoder = Jt808Deserialize::new();
    let mut buffer = vec![0x7eu8, 0x01, 0x02, 0x7e];
    assert!(matches!(decoder.deserialize(&mut buffer), Err(Jt808CodecError::No808)));
}

#[test]
fn framer_resynchronizes_after_overlong_input() {
    let mut package = JtPackage::new(SIM);
    let image = package.serialize(0x0200, &vec![0x11]);
    let mut buffer: Vec<u8> = vec![0u8; 1085];
    buffer.extend_from_slice(&image);
    let mut decoder = Jt808Deserialize::new();
    assert!(matches!(
        decoder.deserialize(&mut buffer),
        Err(Jt808CodecError::MaxLineLengthExceeded)
    ));
    // The stream recovers: exactly the one valid frame comes out.
    let jt = decoder.deserialize(&mut buffer).expect("framing error").expect("no frame");
    assert_eq!(jt.id, 0x0200);
    assert_eq!(jt.body, vec![0x11]);
    assert!(matches!(decoder.deserialize(&mut buffer), Ok(None)));
    assert!(buffer.is_empty());
}

#[test]
fn reassembly_is_order_independent() {
    let bodies: [Vec<u8>; 3] = [vec![1, 2], vec![3], vec![4, 5, 6]];
    let orders: [[u16; 3]; 6] =
        [[1, 2, 3], [1, 3, 2], [2, 1, 3], [2, 3, 1], [3, 1, 2], [3, 2, 1]];
    for order in orders.iter() {
        let mut packup = Jt808PackUp::new();
        let mut done: Option<JtSubMerger> = None;
        for (step, &index) in order.iter().enumerate() {
            let jt = frag(0x0200, 10 + index - 1, index, 3, bodies[(index - 1) as usize].clone());
            let r = packup.get_sub_merger(jt);
            if step < 2 {
                assert!(r.is_none());
            } else {
                done = r;
            }
        }
        let group = done.expect("group did not complete");
        assert_eq!(group.first_sn, 10);
        assert_eq!(group.merged_body(), vec![1, 2, 3, 4, 5, 6]);
    }
}

#[test]
fn unfragmented_message_completes_immediately() {
    let mut packup = Jt808PackUp::new();
    let group = packup.get_sub_merger(single(0x0200, 42, vec![9])).expect("not complete");
    assert_eq!(group.first_sn, 42);
    assert_eq!(group.merged_body(), vec![9]);
    assert!(group.check_pack());
}

#[test]
fn conflicting_fragment_is_dropped() {
    let mut packup = Jt808PackUp::new();
    assert!(packup.get_sub_merger(frag(0x0200, 10, 1, 3, vec![1])).is_none());
    // Same first sequence number, contradicting total.
    assert!(packup.get_sub_merger(frag(0x0200, 11, 2, 4, vec![2])).is_none());
    // The original group still completes.
    assert!(packup.get_sub_merger(frag(0x0200, 11, 2, 3, vec![2])).is_none());
    assert!(packup.get_sub_merger(frag(0x0200, 12, 3, 3, vec![3])).is_some());
}

#[test]
fn registry_keeps_at_most_one_session_per_identifier() {
    let mut registry = init();
    let h1 = registry.map_insert(SIM);
    assert!(!registry.is_closed(&h1));
    let h2 = registry.map_insert(SIM);
    // The evicted registration is closed; the new one is live and alone.
    assert!(registry.is_closed(&h1));
    assert!(!registry.is_closed(&h2));
    let current = registry.map_get(SIM).expect("no live session");
    assert_eq!(current.gen, h2.gen);
    // A stale connection cannot tear down its replacement.
    registry.map_remove(&h1);
    assert!(!registry.is_closed(&h2));
    registry.map_remove(&h2);
    assert!(registry.is_closed(&h2));
    assert!(registry.map_get(SIM).is_none());
}

fn fresh_session(fw: &mut ServiceForward) -> Jt808Session {
    let mut registry = init();
    let h = registry.map_insert(SIM);
    let fw_sender = fw.get_forward_sender(SIM);
    let shared = Jt808SessionShared::new(JtPackage::new(SIM));
    Jt808Session::new(shared, fw_sender, 0, fw, h)
}

fn ack_message(answer_sn: u16, result: u8) -> JtSubMerger {
    let body = vec![
        (answer_sn / 256) as u8,
        (answer_sn % 256) as u8,
        0x91,
        0x01,
        result,
    ];
    let jt = single(0x0001, 99, body);
    let mut packup = Jt808PackUp::new();
    packup.get_sub_merger(jt).expect("ack should be complete")
}

#[test]
fn command_ack_completes_the_waiter() {
    let mut fw = ServiceForward::new();
    let mut session = fresh_session(&mut fw);
    let (sn, frame) = session.session_shared.send_cmd_begin(0x9101, &vec![0x01]);
    let sent = decode_frame_image(&frame);
    assert_eq!(sent.id, 0x9101);
    assert_eq!(sent.sn, sn);
    let actions = session.handle(&ack_message(sn, 3), 0, &fw);
    assert_eq!(actions.len(), 1);
    match &actions[0] {
        Action::CompleteCommand { sn: done_sn, result } => {
            assert_eq!(*done_sn, sn);
            assert_eq!(*result, 3);
        },
        _ => panic!("expected a command completion"),
    }
    // The waiter is gone: the same ack again matches nothing.
    let again = session.handle(&ack_message(sn, 3), 0, &fw);
    assert!(again.is_empty());
}

#[test]
fn late_ack_after_timeout_is_dropped() {
    let mut fw = ServiceForward::new();
    let mut session = fresh_session(&mut fw);
    let (sn, _frame) = session.session_shared.send_cmd_begin(0x9102, &vec![]);
    session.session_shared.send_cmd_timeout(sn);
    let actions = session.handle(&ack_message(sn, 0), 0, &fw);
    assert!(actions.is_empty());
}

#[test]
fn ack_for_forwarded_traffic_routes_to_consumer() {
    let mut fw = ServiceForward::new();
    let mut session = fresh_session(&mut fw);
    // A consumer injected a message; its first reserved sequence number
    // awaits the device's ack.
    let injected = {
        let mut packup = Jt808PackUp::new();
        packup.get_sub_merger(single(0x8300, 0, vec![1, 2, 3])).unwrap()
    };
    let frames = session
        .session_shared
        .forward_recv(&injected, 7)
        .expect("open session refused forward");
    assert_eq!(frames.len(), 1);
    let rewritten = decode_frame_image(&frames[0]);
    assert_eq!(rewritten.id, 0x8300);
    let reserved_sn = rewritten.sn;
    let actions = session.handle(&ack_message(reserved_sn, 0), 0, &fw);
    assert_eq!(actions.len(), 1);
    match &actions[0] {
        Action::AckToConsumer { consumer, frames } => {
            assert_eq!(*consumer, 7);
            assert_eq!(frames.len(), 1);
        },
        _ => panic!("expected an ack delivery to the consumer"),
    }
}

#[test]
fn every_reserved_fragment_sn_routes_the_ack_back() {
    let mut fw = ServiceForward::new();
    let mut session = fresh_session(&mut fw);
    // A consumer injects a two-fragment message; both reserved sequence
    // numbers must await the device's ack.
    let injected = {
        let mut packup = Jt808PackUp::new();
        assert!(packup.get_sub_merger(frag(0x8300, 20, 1, 2, vec![1])).is_none());
        packup.get_sub_merger(frag(0x8300, 21, 2, 2, vec![2])).unwrap()
    };
    let frames = session
        .session_shared
        .forward_recv(&injected, 9)
        .expect("open session refused forward");
    assert_eq!(frames.len(), 2);
    let second_sn = decode_frame_image(&frames[1]).sn;
    assert_eq!(second_sn, decode_frame_image(&frames[0]).sn.wrapping_add(1));
    // Acking the second fragment (not the first) still routes back.
    let actions = session.handle(&ack_message(second_sn, 0), 0, &fw);
    assert_eq!(actions.len(), 1);
    match &actions[0] {
        Action::AckToConsumer { consumer, .. } => assert_eq!(*consumer, 9),
        _ => panic!("expected an ack delivery to the consumer"),
    }
}

#[test]
fn framer_errors_on_marker_free_overflow() {
    let mut decoder = Jt808Deserialize::new();
    // One byte past the bound, no marker anywhere: the decoder must
    // report the overflow rather than keep waiting.
    let mut buffer = vec![0u8; 1025];
    assert!(matches!(
        decoder.deserialize(&mut buffer),
        Err(Jt808CodecError::MaxLineLengthExceeded)
    ));
}

#[test]
fn framer_keeps_short_marker_free_input() {
    let mut decoder = Jt808Deserialize::new();
    let mut buffer = vec![0u8; 5];
    assert!(matches!(decoder.deserialize(&mut buffer), Ok(None)));
    assert_eq!(buffer.len(), 5);
}

#[test]
fn forward_recv_fails_on_closed_session() {
    let mut shared = Jt808SessionShared::new(JtPackage::new(SIM));
    shared.close();
    assert!(shared.is_closed());
    let injected = {
        let mut packup = Jt808PackUp::new();
        packup.get_sub_merger(single(0x8300, 0, vec![])).unwrap()
    };
    assert!(shared.forward_recv(&injected, 1).is_none());
}

#[test]
fn stale_sender_cache_refreshes_after_subscription_change() {
    let mut fw = ServiceForward::new();
    fw.add_session();
    // Cache the (empty) fan-out list for the device.
    let mut sender = fw.get_forward_sender(SIM);
    assert!(sender.forward_send(&fw).is_empty());
    // A consumer subscribes: the version moves.
    let before = fw.update;
    {
        let ServiceForward { ref mut forward_session, ref mut update } = fw;
        forward_session[0].handle_cmd(0x02, &vec![SIM], update);
    }
    assert_ne!(fw.update, before);
    // The stale cache refreshes and now includes the new subscriber.
    let targets = sender.forward_send(&fw);
    assert_eq!(targets, vec![0u64]);
    // A no-op add does not bump the version.
    let before = fw.update;
    {
        let ServiceForward { ref mut forward_session, ref mut update } = fw;
        forward_session[0].handle_cmd(0x02, &vec![SIM], update);
    }
    assert_eq!(fw.update, before);
    // An effective remove bumps it again.
    {
        let ServiceForward { ref mut forward_session, ref mut update } = fw;
        forward_session[0].handle_cmd(0x03, &vec![SIM], update);
    }
    assert_ne!(fw.update, before);
    assert!(sender.forward_send(&fw).is_empty());
}

#[test]
fn registration_then_silent_location_report() {
    // End to end: registration in, ack out, nothing forwarded; then a
    // location report with no subscribers produces no traffic.
    let image = build_frame(0x0100, SIM, 7, None, &vec![]);
    let mut pipeline = Jt808DeserializeAndPackUp::new();
    let mut buffer = image.clone();
    let group = pipeline.deserialize(&mut buffer).expect("framing error").expect("no message");
    let mut fw = ServiceForward::new();
    let mut session = fresh_session(&mut fw);
    let actions = session.handle(&group, 0, &fw);
    assert_eq!(actions.len(), 1);
    match &actions[0] {
        Action::Reply(frame) => {
            let reply = decode_frame_image(frame);
            assert_eq!(reply.id, 0x8100);
            assert_eq!(reply.sim, SIM);
            // answer_sn = inbound sn, result = success, then the token.
            assert_eq!(
                reply.body,
                vec![0x00, 0x07, 0x00, 0x39, 0x30, 0x39, 0x30, 0x39, 0x38, 0x30]
            );
        },
        _ => panic!("expected a registration ack reply"),
    }
    let mut buffer = build_frame(0x0200, SIM, 8, None, &vec![0x55]);
    let group = pipeline.deserialize(&mut buffer).expect("framing error").expect("no message");
    let actions = session.handle(&group, 1, &fw);
    assert!(actions.is_empty());
}

#[test]
fn authentication_gets_a_generic_ack() {
    let mut fw = ServiceForward::new();
    let mut session = fresh_session(&mut fw);
    let auth = {
        let mut packup = Jt808PackUp::new();
        packup.get_sub_merger(single(0x0102, 12, vec![0xde, 0xad])).unwrap()
    };
    let actions = session.handle(&auth, 0, &fw);
    assert_eq!(actions.len(), 1);
    match &actions[0] {
        Action::Reply(frame) => {
            let reply = decode_frame_image(frame);
            assert_eq!(reply.id, 0x8001);
            assert_eq!(reply.body, vec![0x00, 0x0c, 0x01, 0x02, 0x00]);
        },
        _ => panic!("expected a generic ack reply"),
    }
}

#[test]
fn heartbeat_updates_time_and_forwards() {
    let mut fw = ServiceForward::new();
    fw.add_session();
    {
        let ServiceForward { ref mut forward_session, ref mut update } = fw;
        forward_session[0].handle_cmd(0x02, &vec![SIM], update);
    }
    let mut session = fresh_session(&mut fw);
    let heartbeat = {
        let mut packup = Jt808PackUp::new();
        packup.get_sub_merger(single(0x0002, 3, vec![])).unwrap()
    };
    let actions = session.handle(&heartbeat, 777, &fw);
    assert_eq!(session.time_last_recv, 777);
    assert_eq!(actions.len(), 1);
    match &actions[0] {
        Action::ForwardData { consumer, frames } => {
            assert_eq!(*consumer, 0);
            assert_eq!(frames.len(), 1);
            let copy = decode_frame_image(&frames[0]);
            assert_eq!(copy.id, 0x0002);
        },
        _ => panic!("expected forwarded data"),
    }
}

#[test]
fn forward_parse_reads_control_frames() {
    let mut parser = ForwardParse::new();
    // length 12: FF FF FF 02, one entry of 6 identifier bytes.
    let mut buffer = vec![
        0x00u8, 0x0c, 0xff, 0xff, 0xff, 0x02, 0x00, 0x06, 0x01, 0x38, 0x00, 0x13, 0x80, 0x00,
    ];
    match parser.parse(&mut buffer) {
        Ok(Some(ReturnType::Cmd(op, sims))) => {
            assert_eq!(op, 0x02);
            assert_eq!(sims, vec![SIM]);
        },
        _ => panic!("expected a control command"),
    }
    assert!(buffer.is_empty());
}

#[test]
fn forward_parse_waits_for_full_packet() {
    let mut parser = ForwardParse::new();
    let mut buffer = vec![0x00u8, 0x0c, 0xff, 0xff];
    assert!(matches!(parser.parse(&mut buffer), Ok(None)));
    assert_eq!(buffer.len(), 4);
}

#[test]
fn forward_parse_reads_data_frames() {
    let image = build_frame(0x0200, SIM, 5, None, &vec![0x42]);
    let mut buffer = vec![(image.len() / 256) as u8, (image.len() % 256) as u8];
    buffer.extend_from_slice(&image);
    let mut parser = ForwardParse::new();
    match parser.parse(&mut buffer) {
        Ok(Some(ReturnType::Data(group))) => {
            assert_eq!(group.merged_body(), vec![0x42]);
        },
        _ => panic!("expected a data message"),
    }
}

#[test]
fn forward_parse_rejects_garbage() {
    let mut parser = ForwardParse::new();
    let mut buffer = vec![0x00u8, 0x03, 0x01, 0x02, 0x03];
    assert!(matches!(
        parser.parse(&mut buffer),
        Err(ForwardCodecError::NotForwardProtocol)
    ));
    // An unhandled control opcode is skipped without error.
    let mut buffer = vec![0x00u8, 0x04, 0xff, 0xff, 0xff, 0x7f];
    assert!(matches!(parser.parse(&mut buffer), Ok(None)));
    assert!(buffer.is_empty());
}

#[test]
fn decode_hex_concrete() {
    assert_eq!(decode_hex("0102ff"), Some(vec![0x01, 0x02, 0xff]));
    assert_eq!(decode_hex("aAfF09"), Some(vec![0xaa, 0xff, 0x09]));
    assert_eq!(decode_hex(""), Some(vec![]));
    assert!(decode_hex("abc").is_none());
    assert!(decode_hex("zz").is_none());
}

#[test]
fn http_route_resolves_live_sessions_only() {
    let mut registry = init();
    // Raw (unescaped, unframed) command frame: id 0x9101, empty body.
    let mut raw = vec![
        0x91u8, 0x01, 0x00, 0x00, 0x01, 0x38, 0x00, 0x13, 0x80, 0x00, 0x00, 0x01,
    ];
    raw.push(xor_sum_bytes(&raw));
    let mut content = String::new();
    for b in &raw {
        content.push_str(&format!("{:02x}", b));
    }
    // No session yet: failure.
    assert!(http_route(&registry, &content).is_none());
    let h = registry.map_insert(SIM);
    let (target, id, body) = http_route(&registry, &content).expect("route failed");
    assert_eq!(target.gen, h.gen);
    assert_eq!(id, 0x9101);
    assert!(body.is_empty());
    // Unsupported id: failure.
    let mut raw = vec![
        0x01u8, 0x00, 0x00, 0x00, 0x01, 0x38, 0x00, 0x13, 0x80, 0x00, 0x00, 0x01,
    ];
    raw.push(xor_sum_bytes(&raw));
    let mut content = String::new();
    for b in &raw {
        content.push_str(&format!("{:02x}", b));
    }
    assert!(http_route(&registry, &content).is_none());
    // Malformed hex: failure.
    assert!(http_route(&registry, "zz").is_none());
}

#[test]
fn forward_session_items_track_bindings() {
    let mut session = ForwardSession::new(0);
    let mut update: u32 = 0;
    assert!(session.get_item(SIM).is_none());
    session.handle_cmd(0x02, &vec![SIM], &mut update);
    let (item, hint) = session.get_item(SIM).expect("not subscribed");
    assert_eq!(hint, 0);
    assert!(item.forward_recv().is_none());
    // Binding the device's session makes consumer traffic routable.
    let mut item = ForwardItem::new();
    let handle = SessionHandle { sim: SIM, gen: 4 };
    item.bind_device(handle);
    assert_eq!(item.forward_recv(), Some(handle));
    // The whole message's frames go back out to the consumer.
    let group = {
        let mut packup = Jt808PackUp::new();
        packup.get_sub_merger(single(0x0200, 1, vec![8])).unwrap()
    };
    let frames = item.forward_send(&group).expect("incomplete group");
    assert_eq!(frames.len(), 1);
    assert_eq!(decode_frame_image(&frames[0]).body, vec![8]);
}

#[test]
fn reset_command_replaces_subscriptions() {
    let mut session = ForwardSession::new(0);
    let mut update: u32 = 0;
    session.handle_cmd(0x02, &vec![1, 2], &mut update);
    assert_eq!(update, 1);
    session.handle_cmd(0x01, &vec![3], &mut update);
    assert_eq!(update, 2);
    assert!(session.get_item(3).is_some());
    assert!(session.get_item(1).is_none());
    assert!(session.get_item(2).is_none());
    // An unknown opcode changes nothing.
    session.handle_cmd(0x77, &vec![9], &mut update);
    assert_eq!(update, 2);
    assert!(session.get_item(9).is_none());
}

#[test]
fn default_config_addresses() {
    let config = ConfigModel::default();
    assert_eq!(config.address_device, "127.0.0.1:20888");
    assert_eq!(config.address_http, "127.0.0.1:20889");
    assert_eq!(config.address_forward, "127.0.0.1:20890");
}
