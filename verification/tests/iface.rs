use ipnet::{Ipv4Net, Ipv6Net};
use metallb_v6_prefix_helper::net::V6Net;
use metallb_v6_prefix_helper::prefix::{
    count_global, Addr, IfaceError, IfaceSource, Interface, SourceError,
};
use std::str::FromStr;

fn v6(text: &str) -> Addr {
    Addr::V6(u128::from(Ipv6Net::from_str(&format!("{}/128", text)).unwrap().addr()))
}

fn v4(text: &str) -> Addr {
    Addr::V4(u32::from(Ipv4Net::from_str(&format!("{}/32", text)).unwrap().addr()))
}

fn iface(name: &str, addr: Vec<Addr>) -> Interface {
    Interface { name: name.to_string(), addr }
}

#[test]
fn finds_correct_net() {
    let s = IfaceSource::test_new("test0".to_string(), 48);
    let r = s.find_v6_net(&[
        v6("fe80::bc4d:ffff:fe13:47ce"),
        v4("10.10.10.2"),
        v6("2003:ee:970c:80aa::199"),
    ]);
    assert!(r.is_some());
    let expected = Ipv6Net::from_str("2003:ee:970c::0/48").unwrap();
    assert_eq!(
        V6Net { addr: u128::from(expected.addr()), prefix_len: expected.prefix_len() },
        r.unwrap()
    );
    assert_eq!(r.unwrap(), V6Net { addr: 0x2003_00ee_970c_0000_0000_0000_0000_0000, prefix_len: 48 });
}

#[test]
fn finds_no_net_without_addresses() {
    let s = IfaceSource::test_new("test0".to_string(), 64);
    assert_eq!(s.find_v6_net(&[]), None);
}

#[test]
fn finds_no_net_among_addresses_that_are_not_global() {
    let s = IfaceSource::test_new("test0".to_string(), 64);
    let r = s.find_v6_net(&[
        v4("10.10.10.2"),
        v4("8.8.8.8"),
        v6("::"),
        v6("::1"),
        v6("fe80::1"),
        v6("febf::1"),
        v6("fc00::1"),
        v6("fd42:aaaa::1"),
        v6("2001:db8::1"),
        v6("2001:db8:ffff::1"),
        v6("ff02::1"),
        v6("ff05::2"),
    ]);
    assert_eq!(r, None);
}

#[test]
fn takes_addresses_next_to_the_reserved_ones_as_global() {
    let s = IfaceSource::test_new("test0".to_string(), 128);
    for text in ["::2", "fec0::1", "fe00::1", "2001:db9::1", "2001:db7::1", "2002:db8::1", "ff0e::1", "ffce::5"] {
        let addr = v6(text);
        let Addr::V6(ip) = addr else { unreachable!() };
        assert_eq!(s.find_v6_net(&[addr]), Some(V6Net { addr: ip, prefix_len: 128 }));
    }
}

#[test]
fn takes_the_last_global_address() {
    let s = IfaceSource::test_new("test0".to_string(), 64);
    let r = s.find_v6_net(&[
        v6("2003:ee:970c:80aa::199"),
        v6("2a02:1234:5678:9abc::1"),
        v6("fe80::1"),
        v4("10.10.10.2"),
    ]);
    assert_eq!(r, Some(V6Net { addr: 0x2a02_1234_5678_9abc_0000_0000_0000_0000, prefix_len: 64 }));
}

#[test]
fn cuts_the_address_to_the_network_length() {
    let addr = v6("2003:ee:970c:80aa:1:2:3:4");
    let full = 0x2003_00ee_970c_80aa_0001_0002_0003_0004u128;
    assert_eq!(
        IfaceSource::test_new("e".to_string(), 0).find_v6_net(&[addr]),
        Some(V6Net { addr: 0, prefix_len: 0 })
    );
    assert_eq!(
        IfaceSource::test_new("e".to_string(), 56).find_v6_net(&[addr]),
        Some(V6Net { addr: 0x2003_00ee_970c_8000_0000_0000_0000_0000, prefix_len: 56 })
    );
    assert_eq!(
        IfaceSource::test_new("e".to_string(), 128).find_v6_net(&[addr]),
        Some(V6Net { addr: full, prefix_len: 128 })
    );
}

#[test]
fn finds_no_net_with_a_network_length_above_128() {
    let addr = v6("2003:ee:970c:80aa::199");
    assert_eq!(IfaceSource::test_new("e".to_string(), 129).find_v6_net(&[addr]), None);
    assert_eq!(IfaceSource::test_new("e".to_string(), 255).find_v6_net(&[addr]), None);
}

#[test]
fn addrs_are_those_of_the_named_interface_in_order() {
    let s = IfaceSource::test_new("eth0".to_string(), 64);
    let listed = vec![
        iface("lo", vec![v4("127.0.0.1"), v6("::1")]),
        iface("eth0", vec![v4("10.10.10.2")]),
        iface("eth1", vec![v6("2a02::1")]),
        iface("eth0", vec![v6("fe80::1"), v6("2003:ee:970c:80aa::199")]),
        iface("eth0", vec![]),
    ];
    let addrs = s.addrs(Ok(listed)).unwrap();
    assert_eq!(addrs, vec![v4("10.10.10.2"), v6("fe80::1"), v6("2003:ee:970c:80aa::199")]);
}

#[test]
fn addrs_of_an_interface_without_addresses_are_none() {
    let s = IfaceSource::test_new("eth0".to_string(), 64);
    let addrs = s.addrs(Ok(vec![iface("eth0", vec![])])).unwrap();
    assert!(addrs.is_empty());
}

#[test]
fn addrs_fail_for_an_interface_that_is_not_listed() {
    let s = IfaceSource::test_new("eth0".to_string(), 64);
    let e = s.addrs(Ok(vec![iface("eth1", vec![v6("2a02::1")])])).unwrap_err();
    assert!(matches!(&e, IfaceError::NotFound(name) if name == "eth0"));
    assert_eq!(e.to_string(), "Interface `eth0` could not be found");
    let e = s.addrs(Ok(vec![])).unwrap_err();
    assert!(matches!(&e, IfaceError::NotFound(name) if name == "eth0"));
}

#[test]
fn addrs_fail_where_the_listing_failed() {
    let s = IfaceSource::test_new("eth0".to_string(), 64);
    let e = s.addrs(Err("permission denied".to_string())).unwrap_err();
    assert!(matches!(&e, IfaceError::LookupError(cause) if cause == "permission denied"));
    assert_eq!(e.to_string(), "Error while looking up interfaces: `permission denied`");
}

#[test]
fn error_messages_name_the_interface() {
    assert_eq!(
        IfaceError::NoIpv6Prefix("eth0".to_string()).to_string(),
        "Interface `eth0` does not have a suitable IPv6 address assigned"
    );
    assert_eq!(IfaceError::NotFound(String::new()).to_string(), "Interface `` could not be found");
    assert_eq!(
        SourceError::from(IfaceError::NotFound("wan".to_string())).to_string(),
        "Interface `wan` could not be found"
    );
    assert_eq!(SourceError::new("no route".to_string()).to_string(), "no route");
}

#[test]
fn v6_network_is_the_prefix_of_the_interface() {
    let s = IfaceSource::test_new("eth0".to_string(), 64);
    let listed = vec![
        iface("eth1", vec![v6("2a02:1::1")]),
        iface("eth0", vec![v6("2003:ee:970c:80aa::199"), v6("fe80::1")]),
    ];
    assert_eq!(
        s.v6_network(Ok(listed)).unwrap(),
        V6Net { addr: 0x2003_00ee_970c_80aa_0000_0000_0000_0000, prefix_len: 64 }
    );
}

#[test]
fn v6_network_fails_without_a_global_address() {
    let s = IfaceSource::test_new("eth0".to_string(), 64);
    let listed = vec![iface("eth0", vec![v6("fe80::1"), v4("10.10.10.2")])];
    let e = s.v6_network(Ok(listed)).unwrap_err();
    assert_eq!(e.to_string(), "Interface `eth0` does not have a suitable IPv6 address assigned");
}

#[test]
fn v6_network_fails_as_the_lookup_does() {
    let s = IfaceSource::test_new("eth0".to_string(), 64);
    let e = s.v6_network(Ok(vec![iface("lo", vec![])])).unwrap_err();
    assert_eq!(e.to_string(), "Interface `eth0` could not be found");
    let e = s.v6_network(Err("boom".to_string())).unwrap_err();
    assert_eq!(e.to_string(), "Error while looking up interfaces: `boom`");
}

#[test]
fn try_new_accepts_an_interface_without_a_prefix() {
    let listed = vec![iface("eth0", vec![v4("10.10.10.2")])];
    let (source, probe) = IfaceSource::try_new("eth0".to_string(), 64, Ok(listed)).unwrap();
    assert_eq!(probe, None);
    assert_eq!(
        source.find_v6_net(&[v6("2003:ee:970c:80aa::199")]),
        Some(V6Net { addr: 0x2003_00ee_970c_80aa_0000_0000_0000_0000, prefix_len: 64 })
    );
}

#[test]
fn try_new_gives_the_prefix_it_found() {
    let listed = vec![iface("eth0", vec![v6("2003:ee:970c:80aa::199")])];
    let (_, probe) = IfaceSource::try_new("eth0".to_string(), 48, Ok(listed)).unwrap();
    assert_eq!(probe, Some(V6Net { addr: 0x2003_00ee_970c_0000_0000_0000_0000_0000, prefix_len: 48 }));
}

#[test]
fn try_new_fails_for_an_interface_that_is_not_listed() {
    let listed = vec![iface("eth1", vec![v6("2003:ee:970c:80aa::199")])];
    let e = IfaceSource::try_new("eth0".to_string(), 64, Ok(listed)).err().unwrap();
    assert!(matches!(e, IfaceError::NotFound(name) if name == "eth0"));
}

#[test]
fn try_new_fails_where_the_listing_failed() {
    let e = IfaceSource::try_new("eth0".to_string(), 64, Err("boom".to_string())).err().unwrap();
    assert!(matches!(e, IfaceError::LookupError(cause) if cause == "boom"));
}

#[test]
fn counts_the_global_addresses() {
    assert_eq!(count_global(&[]), 0);
    assert_eq!(count_global(&[v4("8.8.8.8"), v6("fe80::1"), v6("2001:db8::1")]), 0);
    assert_eq!(
        count_global(&[v6("fe80::bc4d:ffff:fe13:47ce"), v4("10.10.10.2"), v6("2003:ee:970c:80aa::199")]),
        1
    );
    assert_eq!(
        count_global(&[v6("2003:ee:970c:80aa::199"), v6("fd42::1"), v6("2a02::1"), v6("2a02::1")]),
        3
    );
}

#[test]
fn candidates_are_the_global_addresses_of_the_interface() {
    let s = IfaceSource::test_new("eth0".to_string(), 64);
    let listed = vec![
        iface("eth1", vec![v6("2a02:1::1"), v6("2a02:2::1")]),
        iface("eth0", vec![v6("2003:ee:970c:80aa::199"), v6("fe80::1")]),
        iface("eth0", vec![v4("10.10.10.2"), v6("2a02:3::1")]),
    ];
    assert_eq!(s.candidates(&listed), 2);
    assert_eq!(s.candidates(&listed[..1].iter().map(|i| iface(&i.name, i.addr.clone())).collect()), 0);
    assert_eq!(s.candidates(&vec![iface("eth0", vec![v6("2a02:3::1")])]), 1);
    assert_eq!(s.candidates(&vec![iface("eth0", vec![])]), 0);
    assert_eq!(s.candidates(&Vec::new()), 0);
}
