//! The session engines seen from outside: the mock router, the server
//! decisions, and the client cache.
use omnimatrix::client::{
    apply_message, commit_mutation, connect_init, update_labels, update_routes, Cache, CacheEvent,
    PendingAcks, PendingChange,
};
use omnimatrix::dummy::DummyRouter;
use omnimatrix::frontend::{
    create_initial_dump, handle_event, handle_message, update_reply, FrontendCommand,
};
use omnimatrix::matrix::{RouterError, RouterEvent, RouterInfo, RouterLabel, RouterMatrixInfo, RouterPatch};
use omnimatrix::model::{Label, VideohubMessage};

#[test]
fn constructor_and_bounds() {
    let dummy = DummyRouter::with_config(2, 3, 4);
    let mi = dummy.get_matrix_info(0).unwrap();
    assert_eq!(mi.input_count, 3);
    assert_eq!(mi.output_count, 4);
    assert!(dummy.get_matrix_info(1).is_ok());
    assert!(dummy.get_matrix_info(5).is_err());
}

#[test]
fn patch_bounds_and_routing() {
    let mut dummy = DummyRouter::with_config(1, 2, 2);
    let p = RouterPatch { from_input: 1, to_output: 1 };
    let ev = dummy.update_routes(0, vec![p]).unwrap();

    let routes = dummy.get_routes(0).unwrap();
    assert!(routes.contains(&p));

    match ev.expect("Expected a RouteUpdate event here!") {
        RouterEvent::RouteUpdate(0, route_update) => {
            assert!(route_update.contains(&p), "RouteUpdate doesn't contain patch");
        }
        _ => panic!("RouterEvent wasn't RouteUpdate!"),
    }

    let bad = RouterPatch { from_input: 5, to_output: 0 };
    assert!(dummy.update_routes(0, vec![bad]).is_err());
}

#[test]
fn input_labels() {
    let mut dummy = DummyRouter::with_config(1, 2, 2);
    let l = RouterLabel { id: 0, name: b"Test Case".to_vec() };
    let ev = dummy.update_input_labels(0, vec![l.clone()]).unwrap();

    let labels = dummy.get_input_labels(0).unwrap();
    assert!(labels.contains(&l));

    match ev.expect("Expected an InputLabelUpdate event here!") {
        RouterEvent::InputLabelUpdate(0, label_update) => {
            assert!(label_update.contains(&l), "InputLabelUpdate doesn't contain label");
        }
        _ => panic!("RouterEvent wasn't InputLabelUpdate!"),
    }

    let bad = RouterLabel { id: 5, name: b"Bad".to_vec() };
    assert!(dummy.update_input_labels(0, vec![bad]).is_err());
}

#[test]
fn output_labels() {
    let mut dummy = DummyRouter::with_config(1, 2, 2);
    let l = RouterLabel { id: 0, name: b"Test Case".to_vec() };
    let ev = dummy.update_output_labels(0, vec![l.clone()]).unwrap();

    let labels = dummy.get_output_labels(0).unwrap();
    assert!(labels.contains(&l));

    match ev.expect("Expected an OutputLabelUpdate event here!") {
        RouterEvent::OutputLabelUpdate(0, label_update) => {
            assert!(label_update.contains(&l), "OutputLabelUpdate doesn't contain label");
        }
        _ => panic!("RouterEvent wasn't OutputLabelUpdate!"),
    }

    let bad = RouterLabel { id: 5, name: b"Bad".to_vec() };
    assert!(dummy.update_output_labels(0, vec![bad]).is_err());
}

#[test]
fn initial_dump() {
    let dummy = DummyRouter::with_config(1, 2, 2);
    let items = create_initial_dump(
        dummy.is_alive(),
        &dummy.get_router_info(),
        &dummy.get_matrix_info(0).unwrap(),
        dummy.get_input_labels(0).unwrap(),
        dummy.get_output_labels(0).unwrap(),
        dummy.get_routes(0).unwrap(),
    );
    assert_eq!(items.len(), 6);
    assert!(matches!(items[0], VideohubMessage::Preamble(..)));
    assert!(matches!(items[1], VideohubMessage::DeviceInfo(..)));
    assert!(matches!(items[2], VideohubMessage::InputLabels(..)));
    assert!(matches!(items[3], VideohubMessage::OutputLabels(..)));
    assert!(matches!(items[4], VideohubMessage::VideoOutputRouting(..)));
    assert_eq!(items[5], VideohubMessage::EndPrelude);
    match &items[0] {
        VideohubMessage::Preamble(p) => assert_eq!(p.version, b"2.7".to_vec()),
        _ => panic!("expected Preamble"),
    }
}

#[test]
fn initial_dump_dead_router() {
    let items = create_initial_dump(
        false,
        &RouterInfo::default(),
        &RouterMatrixInfo { input_count: 0, output_count: 0 },
        Vec::new(),
        Vec::new(),
        Vec::new(),
    );
    assert_eq!(items.len(), 3);
    assert!(matches!(items[0], VideohubMessage::Preamble(..)));
    assert!(matches!(items[1], VideohubMessage::DeviceInfo(..)));
    assert_eq!(items[2], VideohubMessage::EndPrelude);
}

#[test]
fn ping_and_label_update() {
    let mut dummy = DummyRouter::with_config(1, 2, 2);

    // Ping is acknowledged without touching the router.
    match handle_message(VideohubMessage::Ping) {
        FrontendCommand::Reply(r) => assert_eq!(r, VideohubMessage::ACK),
        _ => panic!("expected a reply"),
    }

    // An empty label block asks for the current labels.
    assert_eq!(
        handle_message(VideohubMessage::InputLabels(vec![])),
        FrontendCommand::QueryInputLabels
    );

    // A nonempty one is applied to the router and acknowledged.
    let test_label = Label { id: 1, name: b"Test Label".to_vec() };
    match handle_message(VideohubMessage::InputLabels(vec![test_label.clone()])) {
        FrontendCommand::UpdateInputLabels(changed) => {
            let ok = dummy.update_input_labels(0, changed).is_ok();
            assert_eq!(update_reply(ok), VideohubMessage::ACK);
        }
        _ => panic!("expected an input-label update"),
    }
    let actual = dummy.get_input_labels(0).unwrap();
    assert!(actual.contains(&RouterLabel { id: 1, name: b"Test Label".to_vec() }));
}

#[test]
fn unknown_message_refused() {
    let msg = VideohubMessage::UnknownMessage(b"FROBNICATE:".to_vec(), Vec::new());
    match handle_message(msg) {
        FrontendCommand::Reply(r) => assert_eq!(r, VideohubMessage::NAK),
        _ => panic!("expected a refusal"),
    }
}

#[test]
fn ping_reply_bytes() {
    // A ping on the wire is answered by an acknowledgment on the wire.
    let buf = b"PING:\n\n".to_vec();
    let (msg, _) = VideohubMessage::parse_single_block(&buf).unwrap();
    match handle_message(msg) {
        FrontendCommand::Reply(r) => {
            assert_eq!(r.to_serialized(), b"ACK\n\n".to_vec());
        }
        _ => panic!("expected a reply"),
    }
}

#[test]
fn route_update_event() {
    let patches = vec![RouterPatch { from_input: 1, to_output: 0 }];
    let ev = RouterEvent::RouteUpdate(0, patches.clone());
    let maybe = handle_event(ev, 0);
    match maybe {
        Some(VideohubMessage::VideoOutputRouting(rr)) => {
            let converted: Vec<RouterPatch> = rr
                .iter()
                .map(|p| RouterPatch { from_input: p.from_input, to_output: p.to_output })
                .collect();
            assert_eq!(converted, patches);
        }
        _ => panic!("expected VideoOutputRouting"),
    }
    // Another matrix's event is swallowed.
    assert_eq!(handle_event(RouterEvent::RouteUpdate(1, patches), 0), None);
    // Other events are swallowed.
    assert_eq!(handle_event(RouterEvent::Connected, 0), None);
}

#[test]
fn route_update_roundtrip_through_server() {
    // A routing mutation from the wire reaches the router, is acknowledged,
    // and the resulting event goes back out sorted by output.
    let mut dummy = DummyRouter::with_config(1, 3, 3);
    let buf = b"VIDEO OUTPUT ROUTING:\n1 2\n\n".to_vec();
    let (msg, _) = VideohubMessage::parse_single_block(&buf).unwrap();
    let ev = match handle_message(msg) {
        FrontendCommand::UpdateRoutes(changes) => {
            assert_eq!(changes, vec![RouterPatch { from_input: 2, to_output: 1 }]);
            let ev = dummy.update_routes(0, changes).unwrap();
            assert_eq!(update_reply(true), VideohubMessage::ACK);
            ev.expect("Expected a RouteUpdate event here!")
        }
        _ => panic!("expected a route update"),
    };
    let out = handle_event(ev, 0).expect("expected a forwarded message");
    match out {
        VideohubMessage::VideoOutputRouting(rs) => {
            assert_eq!(rs.len(), 3);
            for i in 0..rs.len() - 1 {
                assert!(rs[i].to_output <= rs[i + 1].to_output);
            }
            assert!(rs.iter().any(|r| r.to_output == 1 && r.from_input == 2));
        }
        _ => panic!("expected VideoOutputRouting"),
    }
}

#[test]
fn client_cache_merges() {
    // The cached list is absent until populated, then merged sparsely.
    let mut opt: Option<Vec<RouterLabel>> = None;
    update_labels(&mut opt, vec![RouterLabel { id: 1, name: b"B".to_vec() }], 4).unwrap();
    update_labels(&mut opt, vec![RouterLabel { id: 1, name: b"C".to_vec() }], 4).unwrap();
    update_labels(&mut opt, vec![RouterLabel { id: 0, name: b"A".to_vec() }], 4).unwrap();
    assert_eq!(
        opt,
        Some(vec![
            RouterLabel { id: 1, name: b"C".to_vec() },
            RouterLabel { id: 0, name: b"A".to_vec() },
        ])
    );
    let r = update_labels(&mut opt, vec![RouterLabel { id: 9, name: b"X".to_vec() }], 4);
    assert_eq!(r, Err(RouterError::OutOfRange));

    let mut ropt: Option<Vec<RouterPatch>> = None;
    update_routes(&mut ropt, vec![RouterPatch { from_input: 1, to_output: 0 }], 2, 2).unwrap();
    update_routes(&mut ropt, vec![RouterPatch { from_input: 0, to_output: 0 }], 2, 2).unwrap();
    assert_eq!(ropt, Some(vec![RouterPatch { from_input: 0, to_output: 0 }]));
    // A duplicate output inside one update overwrites, last wins.
    update_routes(
        &mut ropt,
        vec![
            RouterPatch { from_input: 1, to_output: 1 },
            RouterPatch { from_input: 0, to_output: 1 },
        ],
        2,
        2,
    )
    .unwrap();
    assert_eq!(
        ropt,
        Some(vec![
            RouterPatch { from_input: 0, to_output: 0 },
            RouterPatch { from_input: 0, to_output: 1 },
        ])
    );
    let r = update_routes(&mut ropt, vec![RouterPatch { from_input: 5, to_output: 0 }], 2, 2);
    assert_eq!(r, Err(RouterError::OutOfRange));
}

#[test]
fn client_connect_and_inbound() {
    // The connect phase demands the dimensions; inbound blocks fill the cache.
    let buf =
        b"VIDEOHUB DEVICE:\nModel name: M\nVideo inputs: 2\nVideo outputs: 2\n\n".to_vec();
    let (msg, _) = VideohubMessage::parse_single_block(&buf).unwrap();
    let mut cache: Cache = match msg {
        VideohubMessage::DeviceInfo(d) => connect_init(&d).unwrap(),
        _ => panic!("expected DeviceInfo"),
    };
    assert_eq!(cache.matrix_info.input_count, 2);
    assert_eq!(cache.matrix_info.output_count, 2);
    assert_eq!(cache.info.model, Some(b"M".to_vec()));
    assert!(cache.input_labels.is_none());

    let buf = b"INPUT LABELS:\n0 A\n7 TooFar\n\n".to_vec();
    let (msg, _) = VideohubMessage::parse_single_block(&buf).unwrap();
    let ev = apply_message(&mut cache, msg);
    assert_eq!(ev, Some(CacheEvent::InputLabels));
    // The out-of-range id was dropped, not surfaced.
    assert_eq!(cache.input_labels, Some(vec![RouterLabel { id: 0, name: b"A".to_vec() }]));

    let bad = b"VIDEOHUB DEVICE:\nModel name: M\n\n".to_vec();
    let (msg, _) = VideohubMessage::parse_single_block(&bad).unwrap();
    match msg {
        VideohubMessage::DeviceInfo(d) => {
            assert!(matches!(connect_init(&d), Err(RouterError::Unsupported)));
        }
        _ => panic!("expected DeviceInfo"),
    }
}

#[test]
fn ack_pairing_is_fifo() {
    let mut pending = PendingAcks::new();
    let a = pending.enqueue();
    let b = pending.enqueue();
    // The first acknowledgment resolves the mutation issued first.
    assert_eq!(pending.resolve(true), Some((a, true)));
    assert_eq!(pending.resolve(false), Some((b, false)));
    assert_eq!(pending.resolve(true), None);
}

#[test]
fn with_config_initial_content() {
    let dummy = DummyRouter::with_config(2, 3, 4);
    for m in 0..2u32 {
        let inputs = dummy.get_input_labels(m).unwrap();
        assert_eq!(inputs.len(), 3);
        assert_eq!(inputs[0].name, b"Input 1".to_vec());
        assert_eq!(inputs[2].name, b"Input 3".to_vec());
        let outputs = dummy.get_output_labels(m).unwrap();
        assert_eq!(outputs.len(), 4);
        assert_eq!(outputs[0].name, b"Output 1".to_vec());
        assert_eq!(outputs[3].name, b"Output 4".to_vec());
        let routes = dummy.get_routes(m).unwrap();
        for n in 0..4u32 {
            assert_eq!(routes[n as usize], RouterPatch { from_input: 0, to_output: n });
        }
    }
    assert!(dummy.is_alive());
    assert_eq!(dummy.get_router_info().matrix_count, Some(2));
}

#[test]
fn write_through_commit() {
    // A mutation reaches the cache only on its positive acknowledgment.
    let mut cache = Cache {
        info: RouterInfo::default(),
        matrix_info: RouterMatrixInfo { input_count: 2, output_count: 2 },
        input_labels: None,
        output_labels: None,
        routes: None,
    };
    let change = vec![RouterLabel { id: 1, name: b"X".to_vec() }];

    // A negative acknowledgment leaves the cache untouched.
    assert_eq!(
        commit_mutation(&mut cache, PendingChange::InputLabels(change.clone()), false),
        Err(RouterError::Rejected)
    );
    assert!(cache.input_labels.is_none());

    // A positive one merges and names the event; the next read needs no
    // round trip.
    assert_eq!(
        commit_mutation(&mut cache, PendingChange::InputLabels(change.clone()), true),
        Ok(CacheEvent::InputLabels)
    );
    assert_eq!(cache.input_labels, Some(change));

    // An out-of-range change is surfaced, cache untouched.
    let bad = vec![RouterLabel { id: 9, name: b"Y".to_vec() }];
    assert_eq!(
        commit_mutation(&mut cache, PendingChange::InputLabels(bad), true),
        Err(RouterError::OutOfRange)
    );

    assert_eq!(
        commit_mutation(
            &mut cache,
            PendingChange::Routes(vec![RouterPatch { from_input: 1, to_output: 0 }]),
            true,
        ),
        Ok(CacheEvent::Routes)
    );
    assert_eq!(cache.routes, Some(vec![RouterPatch { from_input: 1, to_output: 0 }]));
}
