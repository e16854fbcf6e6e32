use metallb_v6_prefix_helper::metallb::k8s::{
    insert_in_pool, net_in_pool, read_pool, replace_in_pool,
};
use metallb_v6_prefix_helper::metallb::{ConnectorError, K8sError, KubeClient, PoolEntry};
use metallb_v6_prefix_helper::net::V6Net;

fn net(text: &str) -> V6Net {
    V6Net::from_str(text).unwrap()
}

fn client() -> KubeClient {
    KubeClient::try_new("my-pool".to_string(), Ok(true)).unwrap()
}

fn pool(entries: &[&str]) -> Result<Option<Vec<String>>, String> {
    Ok(Some(entries.iter().map(|e| e.to_string()).collect()))
}

fn strings(entries: &[&str]) -> Vec<String> {
    entries.iter().map(|e| e.to_string()).collect()
}

const OLD: &str = "2001:db8::abab:cdcd:0:0/80";
const NEW: &str = "2001:db8:1111:1111:abab:cdcd::/80";
const OTHER: &str = "fd42:aaaa::/64";

#[test]
fn try_new_needs_the_resource_kind() {
    let e = KubeClient::try_new("my-pool".to_string(), Ok(false)).err().unwrap();
    assert_eq!(
        e.to_string(),
        "MetalLB IPAddressPool CRD does not exist, please make sure that it is installed"
    );
}

#[test]
fn try_new_fails_as_the_cluster_does() {
    let e = KubeClient::try_new("my-pool".to_string(), Err("tls handshake".to_string()))
        .err()
        .unwrap();
    assert_eq!(e.to_string(), "tls handshake");
}

#[test]
fn try_new_keeps_the_name() {
    assert_eq!(client().pool_name(), "my-pool");
}

#[test]
fn find_pool_gives_the_addresses() {
    let addresses = client().find_pool(pool(&["10.0.0.0/8", OTHER])).unwrap();
    assert_eq!(addresses, strings(&["10.0.0.0/8", OTHER]));
}

#[test]
fn find_pool_fails_without_the_pool() {
    let e = client().find_pool(Ok(None)).unwrap_err();
    assert!(matches!(&e, K8sError::PoolNotFound(name) if name == "my-pool"));
    assert_eq!(e.to_string(), "Could not find MetalLB AddressPool with name `my-pool`");
}

#[test]
fn find_pool_fails_as_the_cluster_does() {
    let e = client().find_pool(Err("timeout".to_string())).unwrap_err();
    assert!(matches!(&e, K8sError::ConnectionError(cause) if cause == "timeout"));
    assert_eq!(e.to_string(), "Error while accessing the k8s API: `timeout`");
}

#[test]
fn error_messages_are_spelled_out() {
    assert_eq!(
        K8sError::RangeNotFound("a".to_string(), "b".to_string()).to_string(),
        "Could not replace range `a` with `b` as it does not exist"
    );
    assert_eq!(
        K8sError::PoolUpdateError("conflict".to_string()).to_string(),
        "Error while updating the ResourcePool: `conflict`"
    );
    assert_eq!(
        ConnectorError::from(K8sError::PoolUpdateError("conflict".to_string())).to_string(),
        "Error while updating the ResourcePool: `conflict`"
    );
    assert_eq!(ConnectorError::new("plain".to_string()).to_string(), "plain");
}

#[test]
fn v6_ranges_are_the_ipv6_entries_in_order() {
    let ranges = client()
        .v6_ranges(pool(&[
            "192.168.10.0/24",
            OTHER,
            "192.168.1.10-192.168.1.20",
            "2001:db8:0:0:abab:cdcd:0:0/80",
            "not a range",
            "",
            "2001:db8::1",
            OTHER,
        ]))
        .unwrap();
    assert_eq!(ranges, vec![net(OTHER), net(OLD), net(OTHER)]);
}

#[test]
fn v6_ranges_of_an_empty_pool_are_none() {
    assert_eq!(client().v6_ranges(pool(&[])).unwrap(), vec![]);
    assert_eq!(client().v6_ranges(pool(&["10.0.0.0/8"])).unwrap(), vec![]);
}

#[test]
fn v6_ranges_fail_as_the_lookup_does() {
    assert!(matches!(client().v6_ranges(Ok(None)), Err(K8sError::PoolNotFound(_))));
    assert!(matches!(
        client().v6_ranges(Err("x".to_string())),
        Err(K8sError::ConnectionError(_))
    ));
}

const OLD_LONG: &str = "2001:db8:0:0:abab:cdcd:0:0/80";

fn entry(text: &str, range: Option<V6Net>) -> PoolEntry {
    PoolEntry { text: text.to_string(), range }
}

#[test]
fn read_pool_reads_every_entry() {
    let entries = read_pool(&strings(&["10.0.0.0/8", OLD_LONG, "", OTHER]));
    assert_eq!(entries.len(), 4);
    assert_eq!(entries[0].text, "10.0.0.0/8");
    assert_eq!(entries[0].range, None);
    assert_eq!(entries[1].text, OLD_LONG);
    assert_eq!(entries[1].range, Some(net(OLD)));
    assert_eq!(entries[2].text, "");
    assert_eq!(entries[2].range, None);
    assert_eq!(entries[3].text, OTHER);
    assert_eq!(entries[3].range, Some(net(OTHER)));
    assert!(read_pool(&Vec::new()).is_empty());
}

#[test]
fn net_in_pool_gives_the_last_occurrence() {
    let pool = read_pool(&strings(&[OLD, OTHER, OLD, "10.0.0.0/8"]));
    assert_eq!(net_in_pool(&pool, &net(OLD)), Some(2));
    assert_eq!(net_in_pool(&pool, &net(OTHER)), Some(1));
    assert_eq!(net_in_pool(&pool, &net(NEW)), None);
    assert_eq!(net_in_pool(&Vec::new(), &net(NEW)), None);
}

#[test]
fn net_in_pool_compares_ranges() {
    let pool = read_pool(&strings(&["2001:db8:0:0:abab:cdcd:0:0/80"]));
    assert_eq!(net_in_pool(&pool, &net(OLD)), Some(0));
    let pool = read_pool(&strings(&[OLD, "2001:DB8::ABAB:CDCD:0:0/80", "10.0.0.0/8"]));
    assert_eq!(net_in_pool(&pool, &net(OLD)), Some(1));
    let pool = read_pool(&strings(&["2001:db8::abab:cdcd:0:0/81"]));
    assert_eq!(net_in_pool(&pool, &net(OLD)), None);
}

#[test]
fn net_in_pool_goes_by_what_the_entries_read_as() {
    let pool = vec![entry("a", Some(net(OLD))), entry(OLD, None), entry("c", Some(net(NEW)))];
    assert_eq!(net_in_pool(&pool, &net(OLD)), Some(0));
    assert_eq!(net_in_pool(&pool, &net(NEW)), Some(2));
    assert_eq!(net_in_pool(&pool, &net(OTHER)), None);
}

#[test]
fn replace_in_pool_follows_the_table() {
    let (old, new) = (net(OLD), net(NEW));
    let texts = || ("old".to_string(), "new".to_string());
    let neither = vec![entry("x", None), entry("y", Some(net(OTHER)))];
    let (o, n) = texts();
    assert!(matches!(
        replace_in_pool(&neither, &old, &new, o, n),
        Err(K8sError::RangeNotFound(o, n)) if o == "old" && n == "new"
    ));
    let new_only = vec![entry("x", None), entry("n", Some(new))];
    let (o, n) = texts();
    assert_eq!(replace_in_pool(&new_only, &old, &new, o, n).unwrap(), None);
    let both = vec![entry("o", Some(old)), entry("x", None), entry("n", Some(new))];
    let (o, n) = texts();
    assert_eq!(replace_in_pool(&both, &old, &new, o, n).unwrap(), Some(strings(&["x", "n"])));
    let old_only = vec![entry("x", None), entry("o", Some(old)), entry("y", Some(net(OTHER)))];
    let (o, n) = texts();
    assert_eq!(
        replace_in_pool(&old_only, &old, &new, o, n).unwrap(),
        Some(strings(&["x", "y", "new"]))
    );
}

#[test]
fn insert_in_pool_adds_the_text_unless_the_range_is_held() {
    let held = vec![entry("x", None), entry("n", Some(net(NEW)))];
    assert_eq!(insert_in_pool(&held, &net(NEW), "new".to_string()), None);
    let missing = vec![entry("x", None), entry(NEW, None), entry("o", Some(net(OLD)))];
    assert_eq!(
        insert_in_pool(&missing, &net(NEW), "new".to_string()),
        Some(strings(&["x", NEW, "o", "new"]))
    );
    assert_eq!(insert_in_pool(&Vec::new(), &net(NEW), "new".to_string()), Some(strings(&["new"])));
}

#[test]
fn replace_finds_the_old_range_however_it_is_written() {
    let r = client().replace(pool(&[OLD_LONG]), &net(OLD_LONG), &net(NEW)).unwrap();
    assert_eq!(r, Some(strings(&[NEW])));
    let written = r.unwrap();
    assert_eq!(V6Net::from_str(&written[0]), Ok(net(NEW)));
    let r = client()
        .replace(pool(&["10.0.0.0/8", OLD_LONG, OTHER, OLD, "2001:DB8::ABAB:CDCD:0:0/80"]), &net(OLD), &net(NEW))
        .unwrap();
    assert_eq!(r, Some(strings(&["10.0.0.0/8", OTHER, NEW])));
}

#[test]
fn replace_finds_the_new_range_however_it_is_written() {
    let long_new = "2001:db8:1111:1111:abab:cdcd:0:0/80";
    let r = client().replace(pool(&[OTHER, long_new]), &net(OLD), &net(NEW)).unwrap();
    assert_eq!(r, None);
    let r = client().replace(pool(&[OLD_LONG, long_new]), &net(OLD), &net(NEW)).unwrap();
    assert_eq!(r, Some(strings(&[long_new])));
}

#[test]
fn insert_finds_the_range_however_it_is_written() {
    let long_new = "2001:db8:1111:1111:abab:cdcd:0:0/80";
    assert_eq!(client().insert(pool(&[OTHER, long_new]), &net(NEW)).unwrap(), None);
}

#[test]
fn replace_of_a_stale_entry_converges() {
    let first = client().replace(pool(&[OLD_LONG, OTHER]), &net(OLD), &net(NEW)).unwrap().unwrap();
    assert_eq!(client().v6_ranges(Ok(Some(first.clone()))).unwrap(), vec![net(OTHER), net(NEW)]);
    assert_eq!(client().replace(Ok(Some(first)), &net(OLD), &net(NEW)).unwrap(), None);
}

#[test]
fn replace_fails_with_neither_range_present() {
    let e = client().replace(pool(&[OTHER, "10.0.0.0/8"]), &net(OLD), &net(NEW)).unwrap_err();
    assert!(matches!(&e, K8sError::RangeNotFound(o, n) if o == OLD && n == NEW));
    assert_eq!(
        e.to_string(),
        "Could not replace range `2001:db8::abab:cdcd:0:0/80` with `2001:db8:1111:1111:abab:cdcd::/80` as it does not exist"
    );
}

#[test]
fn replace_does_nothing_with_only_the_new_range_present() {
    let r = client().replace(pool(&[OTHER, NEW]), &net(OLD), &net(NEW)).unwrap();
    assert_eq!(r, None);
}

#[test]
fn replace_removes_the_old_range_with_both_present() {
    let r = client().replace(pool(&[OLD, "10.0.0.0/8", NEW, OTHER]), &net(OLD), &net(NEW)).unwrap();
    assert_eq!(r, Some(strings(&["10.0.0.0/8", NEW, OTHER])));
}

#[test]
fn replace_exchanges_the_ranges_with_only_the_old_one_present() {
    let r = client().replace(pool(&["10.0.0.0/8", OLD, OTHER]), &net(OLD), &net(NEW)).unwrap();
    assert_eq!(r, Some(strings(&["10.0.0.0/8", OTHER, NEW])));
}

#[test]
fn replace_removes_every_occurrence_of_the_old_range() {
    let r = client().replace(pool(&[OLD, OTHER, OLD]), &net(OLD), &net(NEW)).unwrap();
    assert_eq!(r, Some(strings(&[OTHER, NEW])));
}

#[test]
fn replace_twice_does_nothing_the_second_time() {
    let first = client().replace(pool(&[OLD, OTHER]), &net(OLD), &net(NEW)).unwrap().unwrap();
    let second = client().replace(Ok(Some(first)), &net(OLD), &net(NEW)).unwrap();
    assert_eq!(second, None);
}

#[test]
fn replace_fails_as_the_lookup_does() {
    assert!(matches!(
        client().replace(Ok(None), &net(OLD), &net(NEW)),
        Err(K8sError::PoolNotFound(_))
    ));
    assert!(matches!(
        client().replace(Err("x".to_string()), &net(OLD), &net(NEW)),
        Err(K8sError::ConnectionError(_))
    ));
}

#[test]
fn insert_adds_the_range_at_the_end() {
    let r = client().insert(pool(&["10.0.0.0/8", OTHER]), &net(NEW)).unwrap();
    assert_eq!(r, Some(strings(&["10.0.0.0/8", OTHER, NEW])));
    let r = client().insert(pool(&[]), &net(NEW)).unwrap();
    assert_eq!(r, Some(strings(&[NEW])));
}

#[test]
fn insert_does_nothing_where_the_range_is_present() {
    let r = client().insert(pool(&[NEW, OTHER]), &net(NEW)).unwrap();
    assert_eq!(r, None);
}

#[test]
fn insert_fails_as_the_lookup_does() {
    assert!(matches!(client().insert(Ok(None), &net(NEW)), Err(K8sError::PoolNotFound(_))));
    assert!(matches!(
        client().insert(Err("x".to_string()), &net(NEW)),
        Err(K8sError::ConnectionError(_))
    ));
}

#[test]
fn written_ranges_read_back() {
    let target = V6Net { addr: 0x2a02_1234_5678_9abc_abab_cdcd_0000_0000, prefix_len: 80 };
    let inserted = client().insert(pool(&["10.0.0.0/8"]), &target).unwrap().unwrap();
    assert_eq!(client().v6_ranges(Ok(Some(inserted))).unwrap(), vec![target]);
    let replaced = client().replace(pool(&[OLD, OTHER]), &net(OLD), &target).unwrap().unwrap();
    assert_eq!(client().v6_ranges(Ok(Some(replaced))).unwrap(), vec![net(OTHER), target]);
}
