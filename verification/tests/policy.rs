use computer_state::policy::{is_loopback, is_tailscale, peer_allowed, AllowedPeer, IpAddress};

#[test]
fn recognizes_tailscale_addresses() {
    assert!(is_tailscale(IpAddress::V4(100, 100, 1, 2)));
    assert!(!is_tailscale(IpAddress::V4(192, 168, 1, 2)));
}

#[test]
fn tailscale_range_edges() {
    assert!(is_tailscale(IpAddress::V4(100, 64, 0, 0)));
    assert!(is_tailscale(IpAddress::V4(100, 127, 255, 255)));
    assert!(!is_tailscale(IpAddress::V4(100, 63, 255, 255)));
    assert!(!is_tailscale(IpAddress::V4(100, 128, 0, 0)));
    assert!(is_tailscale(IpAddress::V6(0xfd7a, 0x115c, 0xa1e0, 0, 0, 0, 0, 1)));
    assert!(!is_tailscale(IpAddress::V6(0xfd7a, 0x115c, 0xa1e1, 0, 0, 0, 0, 1)));
}

#[test]
fn loopback_addresses() {
    assert!(is_loopback(IpAddress::V4(127, 0, 0, 1)));
    assert!(is_loopback(IpAddress::V4(127, 8, 9, 10)));
    assert!(!is_loopback(IpAddress::V4(128, 0, 0, 1)));
    assert!(is_loopback(IpAddress::V6(0, 0, 0, 0, 0, 0, 0, 1)));
    assert!(!is_loopback(IpAddress::V6(0, 0, 0, 0, 0, 0, 0, 2)));
}

#[test]
fn default_policy_admits_loopback_and_tailscale_only() {
    let allowed = vec!["loopback".to_string(), "tailscale".to_string()];
    let addresses = vec![None, None];
    assert!(peer_allowed(IpAddress::V4(127, 0, 0, 1), &allowed, &addresses));
    assert!(peer_allowed(IpAddress::V4(100, 101, 0, 1), &allowed, &addresses));
    assert!(!peer_allowed(IpAddress::V4(192, 168, 1, 20), &allowed, &addresses));
    assert!(AllowedPeer::check(Some(IpAddress::V4(127, 0, 0, 1)), &allowed, &addresses).is_some());
    assert!(AllowedPeer::check(None, &allowed, &addresses).is_none());
    assert!(AllowedPeer::check(Some(IpAddress::V4(10, 0, 0, 1)), &allowed, &addresses).is_none());
}

#[test]
fn literal_addresses_admit_exactly_themselves() {
    let allowed = vec!["192.168.1.20".to_string()];
    let addresses = vec![Some(IpAddress::V4(192, 168, 1, 20))];
    assert!(peer_allowed(IpAddress::V4(192, 168, 1, 20), &allowed, &addresses));
    assert!(!peer_allowed(IpAddress::V4(192, 168, 1, 21), &allowed, &addresses));
    assert!(!peer_allowed(IpAddress::V4(127, 0, 0, 1), &allowed, &addresses));
}
