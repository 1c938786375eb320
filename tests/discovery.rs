use snd::discovery::{
    announce_message, broadcast_targets, extract_hostname, gen_cname, hostname_or_default,
    is_loopback, is_vpn, is_vpn_upper, is_vpn_windows, HostRegistry, NetInterface, FALLBACK_BROADCAST, PORT,
};
use snd::types::{IpAddress, Platform};

#[test]
fn hostname_extraction() {
    assert_eq!(extract_hostname("Hello from alpha!"), "alpha");
    assert_eq!(extract_hostname("Hello, world!"), "Hello, world");
    assert_eq!(extract_hostname("Hello from !"), "Hello from ");
    assert_eq!(extract_hostname("plain"), "plain");
    assert_eq!(extract_hostname("hi!! from x"), "hi!! from x");
    assert_eq!(extract_hostname("a from b!c!"), "b");
    assert_eq!(extract_hostname("!!!"), "");
    assert_eq!(extract_hostname(&announce_message("node-7")), "node-7");
}

#[test]
fn announce_text() {
    assert_eq!(announce_message("alpha"), "Hello from alpha!");
    assert_eq!(PORT, 58422);
    assert_eq!(FALLBACK_BROADCAST, 0xFFFF_FFFF);
}

#[test]
fn vpn_names() {
    for name in ["tun0", "tap1", "ppp0", "zt123", "tailscale0", "utun3", "vpn-x"] {
        assert!(is_vpn(name, Platform::Unix), "{}", name);
        assert!(!is_vpn(name, Platform::Other), "{}", name);
    }
    for name in ["eth0", "wlan0", "en0", "mytun", ""] {
        assert!(!is_vpn(name, Platform::Unix), "{}", name);
    }
}

#[test]
fn windows_vpn_names() {
    for name in ["TAP-Windows Adapter V9", "OpenVPN Data Channel", "wireguard tunnel", "ZeroTier One", "Tailscale", "my tap"] {
        assert!(is_vpn_windows(name), "{}", name);
        assert!(is_vpn(name, Platform::Windows), "{}", name);
    }
    for name in ["Ethernet", "Wi-Fi", "Local Area Connection"] {
        assert!(!is_vpn_windows(name), "{}", name);
    }
    assert!(is_vpn_upper("OPENVPN"));
    assert!(!is_vpn_upper("openvpn"));
    assert!(!is_vpn("tun0", Platform::Windows));
}

#[test]
fn loopback_addresses() {
    assert!(is_loopback(IpAddress::V4(0x7F00_0001)));
    assert!(is_loopback(IpAddress::V4(0x7F12_3456)));
    assert!(!is_loopback(IpAddress::V4(0xC0A8_0001)));
    assert!(is_loopback(IpAddress::V6(1)));
    assert!(!is_loopback(IpAddress::V6(2)));
}

#[test]
fn broadcast_target_selection() {
    let ifs = vec![
        NetInterface { name: "lo".to_string(), ip: IpAddress::V4(0x7F00_0001), broadcast: None },
        NetInterface { name: "eth0".to_string(), ip: IpAddress::V4(0xC0A8_0105), broadcast: Some(0xC0A8_01FF) },
        NetInterface { name: "tun0".to_string(), ip: IpAddress::V4(0x0A08_0001), broadcast: Some(0x0A08_00FF) },
        NetInterface { name: "eth0".to_string(), ip: IpAddress::V6(0xfe80 << 112), broadcast: None },
        NetInterface { name: "wlan0".to_string(), ip: IpAddress::V4(0x0A00_0005), broadcast: Some(0x0A00_00FF) },
        NetInterface { name: "eth1".to_string(), ip: IpAddress::V4(0x0A01_0005), broadcast: None },
    ];
    assert_eq!(broadcast_targets(&ifs, Platform::Unix), vec![0xC0A8_01FF, 0x0A00_00FF]);
    assert_eq!(
        broadcast_targets(&ifs, Platform::Windows),
        vec![0xC0A8_01FF, 0x0A08_00FF, 0x0A00_00FF]
    );
    assert!(broadcast_targets(&Vec::new(), Platform::Unix).is_empty());
}

#[test]
fn hostname_fallback() {
    assert_eq!(hostname_or_default(Some("box".to_string())), "box");
    assert_eq!(hostname_or_default(None), "nohostnameerror");
    assert!(!gen_cname().is_empty());
}

#[test]
fn empty_registry() {
    let reg = HostRegistry::new();
    assert_eq!(reg.len(), 0);
    assert!(reg.names().is_empty());
    assert_eq!(reg.lookup(""), None);
}
