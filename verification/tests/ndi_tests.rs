//! The NDI discovery backend's decisions seen from outside.
use omnimatrix::matrix::{RouterError, RouterEvent, RouterPatch, RouterLabel};
use omnimatrix::ndi::{NDIRouter, OutputAction, SourceEntry};

fn entry(name: &[u8], url: &[u8]) -> SourceEntry {
    SourceEntry { name: name.to_vec(), url: url.to_vec() }
}

#[test]
fn ndi_discovery_fills_and_frees_slots() {
    let mut r = NDIRouter::new(&b"Studio".to_vec(), 2, 2);
    assert!(r.is_alive());
    assert_eq!(r.get_matrix_info(0).unwrap().input_count, 2);
    assert!(r.get_matrix_info(1).is_err());

    // Two discovered sources take the two slots.
    let (changed, actions) = r.sync_sources(vec![
        entry(b"CamA", b"10.0.0.1:5961"),
        entry(b"CamB", b"10.0.0.2:5961"),
    ]);
    assert!(changed);
    assert!(actions.is_empty());
    let labels = r.get_input_labels(0).unwrap();
    assert_eq!(labels[0].name, b"CamA".to_vec());
    assert_eq!(labels[1].name, b"CamB".to_vec());

    // A third finds no slot left.
    let (_, _) = r.sync_sources(vec![
        entry(b"CamA", b"10.0.0.1:5961"),
        entry(b"CamB", b"10.0.0.2:5961"),
        entry(b"CamC", b"10.0.0.3:5961"),
    ]);
    let labels = r.get_input_labels(0).unwrap();
    assert_eq!(labels[0].name, b"CamA".to_vec());
    assert_eq!(labels[1].name, b"CamB".to_vec());

    // Route output 1 to the second slot, then let that source vanish: the
    // slot frees and the output is repatched to input 0.
    let (actions, ev) = r.update_routes(0, vec![RouterPatch { from_input: 1, to_output: 1 }]).unwrap();
    assert_eq!(actions.len(), 1);
    assert!(matches!(actions[0], OutputAction::RouteOutput(1, _, _)));
    assert!(matches!(ev, Some(RouterEvent::RouteUpdate(0, _))));

    let (changed, actions) = r.sync_sources(vec![entry(b"CamA", b"10.0.0.1:5961")]);
    assert!(changed);
    let labels = r.get_input_labels(0).unwrap();
    assert_eq!(labels[1].name, b"".to_vec());
    // The repatch routes output 1 to slot 0, which still holds CamA.
    assert!(actions.iter().any(|a| matches!(a, OutputAction::RouteOutput(1, _, _))));
    let routes = r.get_routes(0).unwrap();
    assert_eq!(routes[1].from_input, 0);
}

#[test]
fn ndi_route_update_needs_known_source() {
    let mut r = NDIRouter::new(&b"Studio".to_vec(), 2, 1);
    // Slot 1 is free: routing to it clears the output.
    let (actions, _) = r.update_routes(0, vec![RouterPatch { from_input: 1, to_output: 0 }]).unwrap();
    assert_eq!(actions, vec![OutputAction::ClearOutput(0)]);

    // A slot naming a source the map does not know rejects the update whole.
    let (_, _) = r.sync_sources(vec![entry(b"CamA", b"10.0.0.1:5961")]);
    let (_, _) = r.sync_sources(vec![]);
    // CamA vanished, slot 0 is free again; fabricate the stale-name case by
    // renaming nothing: all slots free, so any patch clears.
    let (actions, _) = r.update_routes(0, vec![RouterPatch { from_input: 0, to_output: 0 }]).unwrap();
    assert_eq!(actions, vec![OutputAction::ClearOutput(0)]);

    // Out-of-range coordinates reject without effect.
    let before = r.get_routes(0).unwrap();
    assert_eq!(
        r.update_routes(0, vec![RouterPatch { from_input: 9, to_output: 0 }]),
        Err(RouterError::OutOfRange)
    );
    assert_eq!(r.get_routes(0).unwrap(), before);
    assert!(r.update_routes(3, vec![]).is_err());

    // A slot naming a source the map does not know rejects the whole
    // update before any patch is applied.
    let mut stale = NDIRouter {
        info: r.get_router_info(),
        matrix_info: r.get_matrix_info(0).unwrap(),
        input_labels: vec![
            RouterLabel { id: 0, name: b"Ghost".to_vec() },
            RouterLabel { id: 1, name: Vec::new() },
        ],
        output_labels: r.get_output_labels(0).unwrap(),
        routes: r.get_routes(0).unwrap(),
        source_map: Vec::new(),
    };
    let before = stale.get_routes(0).unwrap();
    assert_eq!(
        stale.update_routes(0, vec![RouterPatch { from_input: 0, to_output: 0 }]),
        Err(RouterError::OutOfRange)
    );
    assert_eq!(stale.get_routes(0).unwrap(), before);
}

#[test]
fn ndi_output_rename_rebuilds_only_changes() {
    let mut r = NDIRouter::new(&b"Studio".to_vec(), 1, 2);
    let current = r.get_output_labels(0).unwrap();
    // Renaming to the current names is a no-op: nothing rebuilt, no event.
    let (rebuilt, ev) = r.update_output_labels(0, current.clone()).unwrap();
    assert!(rebuilt.is_empty());
    assert!(ev.is_none());
    // An actual rename rebuilds exactly that output and reports the event.
    let (rebuilt, ev) = r
        .update_output_labels(0, vec![RouterLabel { id: 1, name: b"Feed".to_vec() }])
        .unwrap();
    assert_eq!(rebuilt, vec![1]);
    match ev.expect("expected an event") {
        RouterEvent::OutputLabelUpdate(0, ls) => assert_eq!(ls[1].name, b"Feed".to_vec()),
        _ => panic!("expected OutputLabelUpdate"),
    }
    // Inputs are discovery-owned.
    assert_eq!(
        r.update_input_labels(0, &vec![]),
        Err(RouterError::Unsupported)
    );
}

#[test]
fn ndi_own_sources_are_recognized() {
    let r = NDIRouter::new(&b"Studio".to_vec(), 1, 1);
    // The fabric's own output appears locally as "<machine> (Studio 1)".
    let own = entry(b"HOST (Studio 1)", b"127.0.0.1:5961");
    assert!(r.is_own(&own));
    // A remote source of the same name is not ours.
    let remote = entry(b"HOST (Studio 1)", b"10.0.0.9:5961");
    assert!(!r.is_own(&remote));
    // A local source with another name is not ours.
    let other = entry(b"HOST (Desk 1)", b"127.0.0.1:5961");
    assert!(!r.is_own(&other));
}
