use sysmon::netinfo::{get_network_interface_details, parse_macos_network_info, Platform};

#[test]
fn ipv4_skips_loopback() {
    let listing = "lo0: flags=8049<UP,LOOPBACK>\n\tinet 127.0.0.1 netmask 0xff000000\nen0: flags=8863<UP,BROADCAST>\n\tinet 192.168.1.42 netmask 0xffffff00 broadcast 192.168.1.255\n";
    let d = parse_macos_network_info(listing, None, None);
    assert_eq!(d.ipv4_address, "192.168.1.42");
}

#[test]
fn ipv4_first_match_wins() {
    let listing = "inet 10.0.0.5 netmask 0xffffff00\ninet 10.0.0.6 netmask 0xffffff00\n";
    let d = parse_macos_network_info(listing, None, None);
    assert_eq!(d.ipv4_address, "10.0.0.5");
}

#[test]
fn ipv6_skips_loopback_and_link_local() {
    let listing = "\tinet6 ::1 prefixlen 128\n\tinet6 fe80::1%lo0 prefixlen 64\n\tinet6 2001:db8::5 prefixlen 64\n";
    let d = parse_macos_network_info(listing, None, None);
    assert_eq!(d.ipv6_address, "2001:db8::5");
}

#[test]
fn mac_address_from_ether_line() {
    let listing = "en0: flags=8863<UP>\n\tether aa:bb:cc:dd:ee:ff\n\tinet 10.1.2.3 netmask 0xffffff00\n";
    let d = parse_macos_network_info(listing, None, None);
    assert_eq!(d.mac_address, "aa:bb:cc:dd:ee:ff");
    assert_eq!(d.ipv4_address, "10.1.2.3");
}

#[test]
fn empty_listing_is_all_sentinel() {
    let d = parse_macos_network_info("", None, None);
    assert_eq!(d.ipv4_address, "N/A");
    assert_eq!(d.ipv6_address, "N/A");
    assert_eq!(d.mac_address, "N/A");
    assert_eq!(d.frequency, "N/A");
    assert_eq!(d.signal_strength, "N/A");
    assert!(d.dns_servers.is_empty());
}

#[test]
fn dns_lines_parse_in_order() {
    let dns = "DNS configuration\n\nresolver #1\n  nameserver[0] : 8.8.8.8\n  nameserver[1] : 1.1.1.1\n".to_string();
    let d = parse_macos_network_info("", Some(&dns), None);
    assert_eq!(d.dns_servers, vec!["8.8.8.8".to_string(), "1.1.1.1".to_string()]);
}

#[test]
fn dns_ignores_other_lines() {
    let dns = "resolver #1\n  search domain[0] : local\n  if_index : 5\n".to_string();
    let d = parse_macos_network_info("", Some(&dns), None);
    assert!(d.dns_servers.is_empty());
}

#[test]
fn wifi_channel_and_signal_parse() {
    let wifi = "     agrCtlRSSI: -55\n     agrCtlNoise: -90\n     channel: 6\n".to_string();
    let d = parse_macos_network_info("", None, Some(&wifi));
    assert_eq!(d.frequency, "6 GHz");
    assert_eq!(d.signal_strength, "-55 dBm");
}

#[test]
fn wifi_last_match_wins() {
    let wifi = "channel: 1\nchannel: 11\n".to_string();
    let d = parse_macos_network_info("", None, Some(&wifi));
    assert_eq!(d.frequency, "11 GHz");
    assert_eq!(d.signal_strength, "N/A");
}

#[test]
fn unknown_platform_is_all_sentinel() {
    let d = get_network_interface_details(Platform::Unknown, None, None, None);
    assert_eq!(d.ipv4_address, "N/A");
    assert_eq!(d.ipv6_address, "N/A");
    assert_eq!(d.mac_address, "N/A");
    assert_eq!(d.frequency, "N/A");
    assert_eq!(d.signal_strength, "N/A");
    assert!(d.dns_servers.is_empty());
}

#[test]
fn linux_and_windows_branches_are_sentinel() {
    for platform in [Platform::LinuxLike, Platform::WindowsLike] {
        let listing = "inet 192.168.0.9 netmask 0xffffff00\n".to_string();
        let d = get_network_interface_details(platform, Some(&listing), None, None);
        assert_eq!(d.ipv4_address, "N/A");
        assert_eq!(d.ipv6_address, "N/A");
        assert_eq!(d.mac_address, "N/A");
        assert_eq!(d.frequency, "N/A");
        assert_eq!(d.signal_strength, "N/A");
        assert!(d.dns_servers.is_empty());
    }
}

#[test]
fn macos_without_listing_is_sentinel() {
    let d = get_network_interface_details(Platform::MacosLike, None, None, None);
    assert_eq!(d.ipv4_address, "N/A");
    assert!(d.dns_servers.is_empty());
}

#[test]
fn macos_with_listing_parses() {
    let listing = "\tinet 172.16.0.2 netmask 0xffff0000\n".to_string();
    let dns = "  nameserver[0] : 9.9.9.9\n".to_string();
    let d = get_network_interface_details(Platform::MacosLike, Some(&listing), Some(&dns), None);
    assert_eq!(d.ipv4_address, "172.16.0.2");
    assert_eq!(d.dns_servers, vec!["9.9.9.9".to_string()]);
    assert_eq!(d.frequency, "N/A");
}

#[test]
fn inet_token_must_be_present() {
    // A line whose text after "inet " holds no token yields nothing.
    let d = parse_macos_network_info("inet \ninet  \n", None, None);
    assert_eq!(d.ipv4_address, "N/A");
}
