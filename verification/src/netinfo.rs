//! Platform network inspector: parses the text output of the OS
//! interface-listing, DNS-configuration and Wi-Fi status utilities into a
//! best-effort summary of the primary interface. Unsupported platforms
//! yield the sentinel-filled summary.
use vstd::prelude::*;
use vstd::string::StrSliceExecFns;
use vstd::string::StringExecFns;

use crate::text::{
    contains_sub, first_token, first_token_spec, has_match, lines_spec, second_segment,
    second_segment_spec, split_lines, starts_with_spec, starts_with_str, trim_spec, trim_str,
    views,
};

verus! {

/// Best-effort details of the primary network interface. String fields
/// hold the sentinel when undeterminable; the DNS list keeps the
/// resolver-configuration order.
pub struct NetworkInterfaceDetails {
    pub ipv4_address: String,
    pub ipv6_address: String,
    pub mac_address: String,
    pub frequency: String,
    pub signal_strength: String,
    pub dns_servers: Vec<String>,
}

/// The platform family the inspector dispatches on.
#[derive(Clone, Copy)]
pub enum Platform {
    MacosLike,
    LinuxLike,
    WindowsLike,
    Unknown,
}

/// The "not available" sentinel.
pub open spec fn na() -> Seq<char> {
    "N/A"@
}

/// Every string field is the sentinel and the DNS list is empty.
pub open spec fn is_sentinel(r: NetworkInterfaceDetails) -> bool {
    &&& r.ipv4_address@ == na()
    &&& r.ipv6_address@ == na()
    &&& r.mac_address@ == na()
    &&& r.frequency@ == na()
    &&& r.signal_strength@ == na()
    &&& r.dns_servers@.len() == 0
}

/// A trimmed listing line that names a non-loopback IPv4 address.
pub open spec fn ipv4_line_matches(l: Seq<char>) -> bool {
    has_match(l, "inet "@) && !has_match(l, "127.0.0.1"@) && !has_match(l, "inet6"@)
}

pub open spec fn ipv4_candidate(l: Seq<char>) -> Seq<char> {
    first_token_spec(second_segment_spec(l, "inet "@))
}

/// A trimmed listing line that names a non-loopback, non-link-local IPv6
/// address.
pub open spec fn ipv6_line_matches(l: Seq<char>) -> bool {
    has_match(l, "inet6 "@) && !has_match(l, "::1"@) && !has_match(l, "fe80"@)
}

pub open spec fn ipv6_candidate(l: Seq<char>) -> Seq<char> {
    first_token_spec(second_segment_spec(l, "inet6 "@))
}

pub open spec fn mac_line_matches(l: Seq<char>) -> bool {
    has_match(l, "ether "@)
}

pub open spec fn mac_candidate(l: Seq<char>) -> Seq<char> {
    first_token_spec(second_segment_spec(l, "ether "@))
}

/// First-match scan of the listing lines for an IPv4 address; empty when
/// no line yields one.
pub open spec fn scan_ipv4(ls: Seq<Seq<char>>) -> Seq<char>
    decreases ls.len(),
{
    if ls.len() == 0 {
        Seq::empty()
    } else {
        let l = trim_spec(ls[0]);
        if ipv4_line_matches(l) && ipv4_candidate(l).len() > 0 {
            ipv4_candidate(l)
        } else {
            scan_ipv4(ls.skip(1))
        }
    }
}

pub open spec fn scan_ipv6(ls: Seq<Seq<char>>) -> Seq<char>
    decreases ls.len(),
{
    if ls.len() == 0 {
        Seq::empty()
    } else {
        let l = trim_spec(ls[0]);
        if ipv6_line_matches(l) && ipv6_candidate(l).len() > 0 {
            ipv6_candidate(l)
        } else {
            scan_ipv6(ls.skip(1))
        }
    }
}

pub open spec fn scan_mac(ls: Seq<Seq<char>>) -> Seq<char>
    decreases ls.len(),
{
    if ls.len() == 0 {
        Seq::empty()
    } else {
        let l = trim_spec(ls[0]);
        if mac_line_matches(l) && mac_candidate(l).len() > 0 {
            mac_candidate(l)
        } else {
            scan_mac(ls.skip(1))
        }
    }
}

/// Every resolver line `nameserver[N] : <addr>`, in output order.
pub open spec fn scan_dns(ls: Seq<Seq<char>>) -> Seq<Seq<char>>
    decreases ls.len(),
{
    if ls.len() == 0 {
        Seq::empty()
    } else {
        let l = ls[0];
        let rest = scan_dns(ls.skip(1));
        if starts_with_spec(trim_spec(l), "nameserver["@) && has_match(l, " : "@) {
            seq![trim_spec(second_segment_spec(l, " : "@))] + rest
        } else {
            rest
        }
    }
}

/// Last-match scan of the Wi-Fi status lines for the channel, with the
/// unit label appended; the sentinel when no line names one.
pub open spec fn scan_wifi_freq(ls: Seq<Seq<char>>) -> Seq<char>
    decreases ls.len(),
{
    if ls.len() == 0 {
        na()
    } else {
        let l = trim_spec(ls.last());
        if has_match(l, "channel: "@) {
            trim_spec(second_segment_spec(l, "channel: "@)) + " GHz"@
        } else {
            scan_wifi_freq(ls.drop_last())
        }
    }
}

/// Last-match scan of the Wi-Fi status lines for the signal strength.
pub open spec fn scan_wifi_signal(ls: Seq<Seq<char>>) -> Seq<char>
    decreases ls.len(),
{
    if ls.len() == 0 {
        na()
    } else {
        let l = trim_spec(ls.last());
        if has_match(l, "agrCtlRSSI: "@) {
            trim_spec(second_segment_spec(l, "agrCtlRSSI: "@)) + " dBm"@
        } else {
            scan_wifi_signal(ls.drop_last())
        }
    }
}

/// The IPv4 field parsed from the whole listing text, sentinel-filled.
pub open spec fn ipv4_of_listing(text: Seq<char>) -> Seq<char> {
    if scan_ipv4(lines_spec(text)).len() > 0 {
        scan_ipv4(lines_spec(text))
    } else {
        na()
    }
}

pub open spec fn ipv6_of_listing(text: Seq<char>) -> Seq<char> {
    if scan_ipv6(lines_spec(text)).len() > 0 {
        scan_ipv6(lines_spec(text))
    } else {
        na()
    }
}

pub open spec fn mac_of_listing(text: Seq<char>) -> Seq<char> {
    if scan_mac(lines_spec(text)).len() > 0 {
        scan_mac(lines_spec(text))
    } else {
        na()
    }
}

pub open spec fn dns_of_output(text: Seq<char>) -> Seq<Seq<char>> {
    scan_dns(lines_spec(text))
}

pub open spec fn freq_of_output(text: Seq<char>) -> Seq<char> {
    scan_wifi_freq(lines_spec(text))
}

pub open spec fn signal_of_output(text: Seq<char>) -> Seq<char> {
    scan_wifi_signal(lines_spec(text))
}

pub open spec fn view_opt(o: Option<&String>) -> Option<Seq<char>> {
    match o {
        Some(s) => Some(s@),
        None => None,
    }
}

/// `r` is exactly what the macOS-like branch parses out of the three
/// utility outputs.
pub open spec fn parses_to(
    r: NetworkInterfaceDetails,
    listing: Seq<char>,
    dns_output: Option<Seq<char>>,
    wifi_output: Option<Seq<char>>,
) -> bool {
    &&& r.ipv4_address@ == ipv4_of_listing(listing)
    &&& r.ipv6_address@ == ipv6_of_listing(listing)
    &&& r.mac_address@ == mac_of_listing(listing)
    &&& views(r.dns_servers@) == (match dns_output {
        Some(d) => dns_of_output(d),
        None => Seq::<Seq<char>>::empty(),
    })
    &&& r.frequency@ == (match wifi_output {
        Some(w) => freq_of_output(w),
        None => na(),
    })
    &&& r.signal_strength@ == (match wifi_output {
        Some(w) => signal_of_output(w),
        None => na(),
    })
}

fn first_ipv4(lines: &Vec<String>) -> (r: String)
    ensures
        r@ == scan_ipv4(views(lines@)),
{
    let ghost vs = views(lines@);
    let n = lines.len();
    let mut i: usize = 0;
    proof {
        assert(vs.skip(0) =~= vs);
    }
    while i < n
        invariant
            i <= n,
            n == lines@.len(),
            vs == views(lines@),
            vs.len() == n,
            scan_ipv4(vs) == scan_ipv4(vs.skip(i as int)),
        decreases n - i,
    {
        let ghost lv = vs.skip(i as int);
        proof {
            assert(lv[0] == vs[i as int]);
            assert(vs[i as int] == lines@[i as int]@);
        }
        let l = trim_str(lines[i].as_str());
        if contains_sub(l, "inet ") && !contains_sub(l, "127.0.0.1") && !contains_sub(l, "inet6") {
            match second_segment(l, "inet ") {
                Some(seg) => {
                    let tok = first_token(seg);
                    if !tok.as_str().is_empty() {
                        proof {
                            assert(scan_ipv4(lv) == ipv4_candidate(trim_spec(lv[0])));
                        }
                        return tok;
                    }
                },
                None => {
                    proof {
                        assert(false);
                    }
                },
            }
        }
        proof {
            assert(scan_ipv4(lv) == scan_ipv4(lv.skip(1)));
            assert(lv.skip(1) =~= vs.skip(i + 1));
        }
        i += 1;
    }
    proof {
        assert(vs.skip(n as int) =~= Seq::<Seq<char>>::empty());
        reveal_strlit("");
        assert(""@ =~= Seq::<char>::empty());
    }
    String::from_str("")
}

fn first_ipv6(lines: &Vec<String>) -> (r: String)
    ensures
        r@ == scan_ipv6(views(lines@)),
{
    let ghost vs = views(lines@);
    let n = lines.len();
    let mut i: usize = 0;
    proof {
        assert(vs.skip(0) =~= vs);
    }
    while i < n
        invariant
            i <= n,
            n == lines@.len(),
            vs == views(lines@),
            vs.len() == n,
            scan_ipv6(vs) == scan_ipv6(vs.skip(i as int)),
        decreases n - i,
    {
        let ghost lv = vs.skip(i as int);
        proof {
            assert(lv[0] == vs[i as int]);
            assert(vs[i as int] == lines@[i as int]@);
        }
        let l = trim_str(lines[i].as_str());
        if contains_sub(l, "inet6 ") && !contains_sub(l, "::1") && !contains_sub(l, "fe80") {
            match second_segment(l, "inet6 ") {
                Some(seg) => {
                    let tok = first_token(seg);
                    if !tok.as_str().is_empty() {
                        proof {
                            assert(scan_ipv6(lv) == ipv6_candidate(trim_spec(lv[0])));
                        }
                        return tok;
                    }
                },
                None => {
                    proof {
                        assert(false);
                    }
                },
            }
        }
        proof {
            assert(scan_ipv6(lv) == scan_ipv6(lv.skip(1)));
            assert(lv.skip(1) =~= vs.skip(i + 1));
        }
        i += 1;
    }
    proof {
        assert(vs.skip(n as int) =~= Seq::<Seq<char>>::empty());
        reveal_strlit("");
        assert(""@ =~= Seq::<char>::empty());
    }
    String::from_str("")
}

fn first_mac(lines: &Vec<String>) -> (r: String)
    ensures
        r@ == scan_mac(views(lines@)),
{
    let ghost vs = views(lines@);
    let n = lines.len();
    let mut i: usize = 0;
    proof {
        assert(vs.skip(0) =~= vs);
    }
    while i < n
        invariant
            i <= n,
            n == lines@.len(),
            vs == views(lines@),
            vs.len() == n,
            scan_mac(vs) == scan_mac(vs.skip(i as int)),
        decreases n - i,
    {
        let ghost lv = vs.skip(i as int);
        proof {
            assert(lv[0] == vs[i as int]);
            assert(vs[i as int] == lines@[i as int]@);
        }
        let l = trim_str(lines[i].as_str());
        if contains_sub(l, "ether ") {
            match second_segment(l, "ether ") {
                Some(seg) => {
                    let tok = first_token(seg);
                    if !tok.as_str().is_empty() {
                        proof {
                            assert(scan_mac(lv) == mac_candidate(trim_spec(lv[0])));
                        }
                        return tok;
                    }
                },
                None => {
                    proof {
                        assert(false);
                    }
                },
            }
        }
        proof {
            assert(scan_mac(lv) == scan_mac(lv.skip(1)));
            assert(lv.skip(1) =~= vs.skip(i + 1));
        }
        i += 1;
    }
    proof {
        assert(vs.skip(n as int) =~= Seq::<Seq<char>>::empty());
        reveal_strlit("");
        assert(""@ =~= Seq::<char>::empty());
    }
    String::from_str("")
}

fn dns_list(lines: &Vec<String>) -> (r: Vec<String>)
    ensures
        views(r@) == scan_dns(views(lines@)),
{
    let ghost vs = views(lines@);
    let n = lines.len();
    let mut out: Vec<String> = Vec::new();
    let mut i: usize = 0;
    proof {
        assert(views(out@) =~= Seq::<Seq<char>>::empty());
        assert(vs.skip(0) =~= vs);
        assert(views(out@) + scan_dns(vs) =~= scan_dns(vs));
    }
    while i < n
        invariant
            i <= n,
            n == lines@.len(),
            vs == views(lines@),
            vs.len() == n,
            scan_dns(vs) == views(out@) + scan_dns(vs.skip(i as int)),
        decreases n - i,
    {
        let ghost lv = vs.skip(i as int);
        proof {
            assert(lv[0] == vs[i as int]);
            assert(vs[i as int] == lines@[i as int]@);
        }
        let raw = lines[i].as_str();
        let l = trim_str(raw);
        if starts_with_str(l, "nameserver[") {
            match second_segment(raw, " : ") {
                Some(seg) => {
                    let val = String::from_str(trim_str(seg));
                    proof {
                        assert(scan_dns(lv) == seq![val@] + scan_dns(lv.skip(1)));
                        crate::text::lemma_views_push(out@, val);
                        assert(views(out@).push(val@) + scan_dns(lv.skip(1)) =~= views(out@) + (
                        seq![val@] + scan_dns(lv.skip(1))));
                        assert(lv.skip(1) =~= vs.skip(i + 1));
                    }
                    out.push(val);
                },
                None => {
                    proof {
                        assert(scan_dns(lv) == scan_dns(lv.skip(1)));
                        assert(lv.skip(1) =~= vs.skip(i + 1));
                    }
                },
            }
        } else {
            proof {
                assert(scan_dns(lv) == scan_dns(lv.skip(1)));
                assert(lv.skip(1) =~= vs.skip(i + 1));
            }
        }
        i += 1;
    }
    proof {
        assert(vs.skip(n as int) =~= Seq::<Seq<char>>::empty());
        assert(views(out@) + Seq::<Seq<char>>::empty() =~= views(out@));
    }
    out
}

fn wifi_freq(lines: &Vec<String>) -> (r: String)
    ensures
        r@ == scan_wifi_freq(views(lines@)),
{
    let ghost vs = views(lines@);
    let n = lines.len();
    let mut cur = String::from_str("N/A");
    let mut i: usize = 0;
    proof {
        assert(vs.take(0) =~= Seq::<Seq<char>>::empty());
    }
    while i < n
        invariant
            i <= n,
            n == lines@.len(),
            vs == views(lines@),
            vs.len() == n,
            cur@ == scan_wifi_freq(vs.take(i as int)),
        decreases n - i,
    {
        proof {
            assert(vs[i as int] == lines@[i as int]@);
        }
        let l = trim_str(lines[i].as_str());
        if contains_sub(l, "channel: ") {
            match second_segment(l, "channel: ") {
                Some(seg) => {
                    cur = String::from_str(trim_str(seg)).concat(" GHz");
                },
                None => {
                    proof {
                        assert(false);
                    }
                },
            }
        }
        proof {
            let lv1 = vs.take(i + 1);
            assert(lv1.drop_last() =~= vs.take(i as int));
            assert(lv1.last() == vs[i as int]);
            assert(cur@ == scan_wifi_freq(lv1));
        }
        i += 1;
    }
    proof {
        assert(vs.take(n as int) =~= vs);
    }
    cur
}

fn wifi_signal(lines: &Vec<String>) -> (r: String)
    ensures
        r@ == scan_wifi_signal(views(lines@)),
{
    let ghost vs = views(lines@);
    let n = lines.len();
    let mut cur = String::from_str("N/A");
    let mut i: usize = 0;
    proof {
        assert(vs.take(0) =~= Seq::<Seq<char>>::empty());
    }
    while i < n
        invariant
            i <= n,
            n == lines@.len(),
            vs == views(lines@),
            vs.len() == n,
            cur@ == scan_wifi_signal(vs.take(i as int)),
        decreases n - i,
    {
        proof {
            assert(vs[i as int] == lines@[i as int]@);
        }
        let l = trim_str(lines[i].as_str());
        if contains_sub(l, "agrCtlRSSI: ") {
            match second_segment(l, "agrCtlRSSI: ") {
                Some(seg) => {
                    cur = String::from_str(trim_str(seg)).concat(" dBm");
                },
                None => {
                    proof {
                        assert(false);
                    }
                },
            }
        }
        proof {
            let lv1 = vs.take(i + 1);
            assert(lv1.drop_last() =~= vs.take(i as int));
            assert(lv1.last() == vs[i as int]);
            assert(cur@ == scan_wifi_signal(lv1));
        }
        i += 1;
    }
    proof {
        assert(vs.take(n as int) =~= vs);
    }
    cur
}

/// Parse the interface listing, plus the DNS-configuration and Wi-Fi
/// status outputs when captured, into the interface summary. Fields with
/// no parse fall back to the sentinel; the DNS list to empty.
pub fn parse_macos_network_info(
    listing: &str,
    dns_output: Option<&String>,
    wifi_output: Option<&String>,
) -> (r: NetworkInterfaceDetails)
    ensures
        parses_to(r, listing@, view_opt(dns_output), view_opt(wifi_output)),
{
    let lines = split_lines(listing);
    let v4 = first_ipv4(&lines);
    let v6 = first_ipv6(&lines);
    let mac = first_mac(&lines);
    let ipv4_address = if v4.as_str().is_empty() {
        String::from_str("N/A")
    } else {
        v4
    };
    let ipv6_address = if v6.as_str().is_empty() {
        String::from_str("N/A")
    } else {
        v6
    };
    let mac_address = if mac.as_str().is_empty() {
        String::from_str("N/A")
    } else {
        mac
    };
    let dns_servers = match dns_output {
        Some(d) => {
            let dl = split_lines(d.as_str());
            dns_list(&dl)
        },
        None => {
            let empty_list: Vec<String> = Vec::new();
            proof {
                assert(views(empty_list@) =~= Seq::<Seq<char>>::empty());
            }
            empty_list
        },
    };
    let (frequency, signal_strength) = match wifi_output {
        Some(w) => {
            let wl = split_lines(w.as_str());
            (wifi_freq(&wl), wifi_signal(&wl))
        },
        None => (String::from_str("N/A"), String::from_str("N/A")),
    };
    NetworkInterfaceDetails {
        ipv4_address,
        ipv6_address,
        mac_address,
        frequency,
        signal_strength,
        dns_servers,
    }
}

pub fn get_linux_ipv4() -> (r: String)
    ensures
        r@ == na(),
{
    String::from_str("N/A")
}

pub fn get_linux_ipv6() -> (r: String)
    ensures
        r@ == na(),
{
    String::from_str("N/A")
}

pub fn get_linux_mac() -> (r: String)
    ensures
        r@ == na(),
{
    String::from_str("N/A")
}

pub fn get_linux_dns() -> (r: Vec<String>)
    ensures
        r@.len() == 0,
{
    Vec::new()
}

pub fn get_windows_ipv4() -> (r: String)
    ensures
        r@ == na(),
{
    String::from_str("N/A")
}

pub fn get_windows_ipv6() -> (r: String)
    ensures
        r@ == na(),
{
    String::from_str("N/A")
}

pub fn get_windows_mac() -> (r: String)
    ensures
        r@ == na(),
{
    String::from_str("N/A")
}

pub fn get_windows_dns() -> (r: Vec<String>)
    ensures
        r@.len() == 0,
{
    Vec::new()
}

/// Dispatch by platform family: the macOS-like branch parses whatever
/// utility output was captured; every other branch, and a macOS-like call
/// whose listing utility produced nothing, returns the sentinel-filled
/// summary with an empty DNS list.
pub fn get_network_interface_details(
    platform: Platform,
    interface_listing: Option<&String>,
    dns_output: Option<&String>,
    wifi_output: Option<&String>,
) -> (r: NetworkInterfaceDetails)
    ensures
        platform is MacosLike ==> (interface_listing matches Some(l) ==> parses_to(
            r,
            l@,
            view_opt(dns_output),
            view_opt(wifi_output),
        )),
        !(platform is MacosLike && interface_listing is Some) ==> is_sentinel(r),
{
    match platform {
        Platform::MacosLike => {
            match interface_listing {
                Some(l) => parse_macos_network_info(l.as_str(), dns_output, wifi_output),
                None => NetworkInterfaceDetails {
                    ipv4_address: String::from_str("N/A"),
                    ipv6_address: String::from_str("N/A"),
                    mac_address: String::from_str("N/A"),
                    frequency: String::from_str("N/A"),
                    signal_strength: String::from_str("N/A"),
                    dns_servers: Vec::new(),
                },
            }
        },
        Platform::LinuxLike => NetworkInterfaceDetails {
            ipv4_address: get_linux_ipv4(),
            ipv6_address: get_linux_ipv6(),
            mac_address: get_linux_mac(),
            frequency: String::from_str("N/A"),
            signal_strength: String::from_str("N/A"),
            dns_servers: get_linux_dns(),
        },
        Platform::WindowsLike => NetworkInterfaceDetails {
            ipv4_address: get_windows_ipv4(),
            ipv6_address: get_windows_ipv6(),
            mac_address: get_windows_mac(),
            frequency: String::from_str("N/A"),
            signal_strength: String::from_str("N/A"),
            dns_servers: get_windows_dns(),
        },
        Platform::Unknown => NetworkInterfaceDetails {
            ipv4_address: String::from_str("N/A"),
            ipv6_address: String::from_str("N/A"),
            mac_address: String::from_str("N/A"),
            frequency: String::from_str("N/A"),
            signal_strength: String::from_str("N/A"),
            dns_servers: Vec::new(),
        },
    }
}

} // verus!
