use proxy_detect::resolve::{
    Label, Resolve, ResolutionUpdate, SockAddr, WireAddr, WireIp, WireUpdate, WireWeightedAddr,
};

fn label(k: &str, v: &str) -> Label {
    Label { key: k.to_string(), value: v.to_string() }
}

fn valid_addr(ip: u32, port: u32) -> WireWeightedAddr {
    WireWeightedAddr {
        addr: Some(WireAddr { ip: Some(WireIp::V4(ip)), port }),
        weight: 1,
        labels: Vec::new(),
    }
}

fn malformed_addr() -> WireWeightedAddr {
    WireWeightedAddr { addr: Some(WireAddr { ip: None, port: 80 }), weight: 1, labels: Vec::new() }
}

#[test]
fn add_filters_malformed_addresses() {
    let update = WireUpdate::Add(vec![valid_addr(0x7f000001, 8080), malformed_addr()], Vec::new());
    match proxy_detect::resolve::translate_update(update) {
        Some(ResolutionUpdate::Add(endpoints)) => {
            assert_eq!(endpoints.len(), 1);
            assert_eq!(endpoints[0].0, SockAddr { ip: WireIp::V4(0x7f000001), port: 8080 });
        },
        _ => panic!("must emit exactly one add"),
    }
}

#[test]
fn add_with_no_valid_address_is_dropped() {
    let update = WireUpdate::Add(vec![malformed_addr(), malformed_addr()], Vec::new());
    assert!(proxy_detect::resolve::translate_update(update).is_none());
}

#[test]
fn remove_all_malformed_is_dropped() {
    let update = WireUpdate::Remove(vec![WireAddr { ip: None, port: 1 }, WireAddr {
        ip: None,
        port: 2,
    }]);
    assert!(proxy_detect::resolve::translate_update(update).is_none());
}

#[test]
fn remove_keeps_valid_addresses_in_order() {
    let update = WireUpdate::Remove(vec![
        WireAddr { ip: Some(WireIp::V4(1)), port: 10 },
        WireAddr { ip: None, port: 11 },
        WireAddr { ip: Some(WireIp::V6(1, 2)), port: 12 },
    ]);
    match proxy_detect::resolve::translate_update(update) {
        Some(ResolutionUpdate::Remove(addrs)) => {
            assert_eq!(addrs, vec![
                SockAddr { ip: WireIp::V4(1), port: 10 },
                SockAddr { ip: WireIp::V6(1, 2), port: 12 },
            ]);
        },
        _ => panic!("must emit a remove"),
    }
}

#[test]
fn no_endpoints_not_existing_is_does_not_exist() {
    match proxy_detect::resolve::translate_update(WireUpdate::NoEndpoints(false)) {
        Some(ResolutionUpdate::DoesNotExist) => {},
        _ => panic!("must be does-not-exist"),
    }
}

#[test]
fn no_endpoints_existing_is_empty_reset() {
    match proxy_detect::resolve::translate_update(WireUpdate::NoEndpoints(true)) {
        Some(ResolutionUpdate::Reset(v)) => assert!(v.is_empty()),
        _ => panic!("must be an empty reset"),
    }
}

#[test]
fn unrecognized_update_is_skipped() {
    assert!(proxy_detect::resolve::translate_update(WireUpdate::Unrecognized).is_none());
}

#[test]
fn port_is_truncated_to_16_bits() {
    let update = WireUpdate::Remove(vec![WireAddr { ip: Some(WireIp::V4(9)), port: 0x1_0050 }]);
    match proxy_detect::resolve::translate_update(update) {
        Some(ResolutionUpdate::Remove(addrs)) => {
            assert_eq!(addrs[0].port, 0x50);
        },
        _ => panic!("must emit a remove"),
    }
}

#[test]
fn add_merges_stream_labels_before_own() {
    let mut entry = valid_addr(5, 80);
    entry.labels = vec![label("zone", "b")];
    entry.weight = 7;
    let update = WireUpdate::Add(vec![entry], vec![label("set", "a")]);
    match proxy_detect::resolve::translate_update(update) {
        Some(ResolutionUpdate::Add(endpoints)) => {
            let meta = &endpoints[0].1;
            assert_eq!(meta.weight, 7);
            assert_eq!(meta.labels.len(), 2);
            assert_eq!(meta.labels[0].key, "set");
            assert_eq!(meta.labels[0].value, "a");
            assert_eq!(meta.labels[1].key, "zone");
            assert_eq!(meta.labels[1].value, "b");
        },
        _ => panic!("must emit an add"),
    }
}

#[test]
fn request_carries_path_and_token() {
    let resolver = Resolve::new("ns:default".to_string());
    let req = resolver.make_request("web.default.svc.cluster.local".to_string());
    assert_eq!(req.path, "web.default.svc.cluster.local");
    assert_eq!(req.context_token, "ns:default");
    // The token is reusable across calls.
    let req2 = resolver.make_request("api.default.svc.cluster.local".to_string());
    assert_eq!(req2.context_token, "ns:default");
}
