//! The address list of one pool of the cluster: how it is read, and how it
//! is rewritten when a range is added or exchanged.
use crate::metallb::{inserted, other_than, replaced, ConnectorError};
use crate::net::{cidr_parse, cidr_text, V6Net};
use vstd::prelude::*;

verus! {

/// Why the cluster's pool could not be read or written.
#[derive(Debug)]
pub enum K8sError {
    /// The cluster could not be reached, with the cause.
    ConnectionError(String),
    /// The cluster has no pool of this name.
    PoolNotFound(String),
    /// The cluster does not know the kind of resource that a pool is.
    CRDNotFound,
    /// Neither the range to replace nor its replacement is in the pool.
    RangeNotFound(String, String),
    /// The cluster refused the new address list, with the cause.
    PoolUpdateError(String),
}

/// The message for a cluster that could not be reached.
pub open spec fn connection_text(cause: Seq<char>) -> Seq<char> {
    "Error while accessing the k8s API: `"@ + cause + "`"@
}

/// The message for a pool that the cluster does not have.
pub open spec fn pool_not_found_text(name: Seq<char>) -> Seq<char> {
    "Could not find MetalLB AddressPool with name `"@ + name + "`"@
}

/// The message for a cluster without the resource kind.
pub open spec fn crd_not_found_text() -> Seq<char> {
    "MetalLB IPAddressPool CRD does not exist, please make sure that it is installed"@
}

/// The message for an exchange in which both ranges are absent.
pub open spec fn range_not_found_text(old: Seq<char>, new: Seq<char>) -> Seq<char> {
    "Could not replace range `"@ + old + "` with `"@ + new + "` as it does not exist"@
}

/// The message for an address list that the cluster refused.
pub open spec fn pool_update_text(cause: Seq<char>) -> Seq<char> {
    "Error while updating the ResourcePool: `"@ + cause + "`"@
}

impl View for K8sError {
    type V = Seq<char>;

    /// The message of the error.
    open spec fn view(&self) -> Seq<char> {
        match self {
            K8sError::ConnectionError(cause) => connection_text(cause@),
            K8sError::PoolNotFound(name) => pool_not_found_text(name@),
            K8sError::CRDNotFound => crd_not_found_text(),
            K8sError::RangeNotFound(old, new) => range_not_found_text(old@, new@),
            K8sError::PoolUpdateError(cause) => pool_update_text(cause@),
        }
    }
}

impl K8sError {
    /// The message of the error.
    pub fn to_string(&self) -> (text: String)
        ensures
            text@ == self@,
    {
        match self {
            K8sError::ConnectionError(cause) => String::from_str(
                "Error while accessing the k8s API: `",
            ).concat(cause.as_str()).concat("`"),
            K8sError::PoolNotFound(name) => String::from_str(
                "Could not find MetalLB AddressPool with name `",
            ).concat(name.as_str()).concat("`"),
            K8sError::CRDNotFound => String::from_str(
                "MetalLB IPAddressPool CRD does not exist, please make sure that it is installed",
            ),
            K8sError::RangeNotFound(old, new) => String::from_str(
                "Could not replace range `",
            ).concat(old.as_str()).concat("` with `").concat(new.as_str()).concat(
                "` as it does not exist",
            ),
            K8sError::PoolUpdateError(cause) => String::from_str(
                "Error while updating the ResourcePool: `",
            ).concat(cause.as_str()).concat("`"),
        }
    }
}

/// The entries of an address list as texts.
pub open spec fn texts(addresses: Seq<String>) -> Seq<Seq<char>> {
    addresses.map_values(|a: String| a@)
}

/// What an entry of the pool is as an IPv6 range, if it is one.
pub open spec fn range_of(text: Seq<char>) -> Option<V6Net> {
    match cidr_parse(text) {
        Some((addr, prefix_len)) => Some(V6Net { addr, prefix_len }),
        None => None,
    }
}

/// The IPv6 ranges among the entries of a pool, in the pool's order.
pub open spec fn ranges_of(pool: Seq<Seq<char>>) -> Seq<V6Net> {
    pool.filter_map(|text: Seq<char>| range_of(text))
}

/// One entry of a pool as it was read: its text, and the IPv6 range that the
/// text is, where it is one.
#[derive(Debug)]
pub struct PoolEntry {
    pub text: String,
    pub range: Option<V6Net>,
}

/// Whether reading the text of `range` gives `range`.
pub open spec fn reads_back(range: V6Net) -> bool {
    range_of(cidr_text(range.addr, range.prefix_len)) == Some(range)
}

/// Whether `entries` are the address list `addresses` as read: text by text,
/// each with the range that it is.
pub open spec fn is_read(entries: Seq<PoolEntry>, addresses: Seq<String>) -> bool {
    &&& entries.len() == addresses.len()
    &&& forall|i: int|
        0 <= i < entries.len() ==> (#[trigger] entries[i]).text == addresses[i] && entries[i].range
            == range_of(addresses[i]@)
}

/// Whether an entry of the pool is `range`.
pub open spec fn holds(pool: Seq<PoolEntry>, range: V6Net) -> bool {
    exists|i: int| 0 <= i < pool.len() && (#[trigger] pool[i]).range == Some(range)
}

/// The entries that are not the range `old`.
pub open spec fn not_range(old: V6Net) -> spec_fn(PoolEntry) -> bool {
    |entry: PoolEntry| entry.range != Some(old)
}

/// The texts of the entries.
pub open spec fn entry_texts(pool: Seq<PoolEntry>) -> Seq<String> {
    pool.map_values(|entry: PoolEntry| entry.text)
}

/// The texts that do not read as the range `old`.
pub open spec fn not_reading(old: V6Net) -> spec_fn(Seq<char>) -> bool {
    |text: Seq<char>| range_of(text) != Some(old)
}

/// The pool without the entries that read as `old`, however they are
/// written. Every other entry stays, as it is written and in its place.
pub open spec fn without(pool: Seq<Seq<char>>, old: V6Net) -> Seq<Seq<char>> {
    pool.filter(not_reading(old))
}

/// A range is among the ranges of a pool exactly where an entry of the pool
/// reads as that range: an entry that is no IPv6 range adds nothing.
pub proof fn lemma_ranges_are_read_entries(pool: Seq<Seq<char>>, range: V6Net)
    ensures
        ranges_of(pool).contains(range) <==> exists|i: int|
            0 <= i < pool.len() && range_of(#[trigger] pool[i]) == Some(range),
        ranges_of(pool).len() <= pool.len(),
    decreases pool.len(),
{
    let read = |text: Seq<char>| range_of(text);
    if pool.len() > 0 {
        let front = pool.drop_last();
        lemma_ranges_are_read_entries(front, range);
        let before = ranges_of(front);
        if before.contains(range) {
            let k = choose|k: int| 0 <= k < before.len() && before[k] == range;
            assert(ranges_of(pool)[k] == range);
            let i = choose|i: int| 0 <= i < front.len() && range_of(#[trigger] front[i]) == Some(range);
            assert(pool[i] == front[i]);
        }
        if range_of(pool.last()) == Some(range) {
            assert(ranges_of(pool)[before.len() as int] == range);
            assert(pool[pool.len() - 1] == pool.last());
        }
        if ranges_of(pool).contains(range) && !before.contains(range) {
            let k = choose|k: int| 0 <= k < ranges_of(pool).len() && ranges_of(pool)[k] == range;
            if k < before.len() {
                assert(before[k] == range);
            }
            assert(pool[pool.len() - 1] == pool.last());
        }
        if exists|i: int| 0 <= i < pool.len() && range_of(#[trigger] pool[i]) == Some(range) {
            let i = choose|i: int| 0 <= i < pool.len() && range_of(#[trigger] pool[i]) == Some(range);
            if i < front.len() {
                assert(front[i] == pool[i]);
            }
        }
    }
}

/// With the text of a range at its end, a pool has that range at the end of
/// its ranges.
pub proof fn lemma_ranges_push(pool: Seq<Seq<char>>, range: V6Net)
    requires
        reads_back(range),
    ensures
        ranges_of(pool.push(cidr_text(range.addr, range.prefix_len))) == ranges_of(pool).push(
            range,
        ),
{
    let text = cidr_text(range.addr, range.prefix_len);
    assert(pool.push(text).drop_last() == pool);
    assert(ranges_of(pool) + seq![range] == ranges_of(pool).push(range));
}

/// Taking the entries that read as a range out of a pool takes the range out
/// of its ranges, and no other.
pub proof fn lemma_ranges_without(pool: Seq<Seq<char>>, old: V6Net)
    ensures
        ranges_of(without(pool, old)) == ranges_of(pool).filter(other_than(old)),
    decreases pool.len(),
{
    reveal(Seq::filter);
    if pool.len() > 0 {
        let front = pool.drop_last();
        let last = pool.last();
        lemma_ranges_without(front, old);
        let rest = without(front, old);
        match range_of(last) {
            Some(r) => {
                assert(ranges_of(front) + seq![r] == ranges_of(front).push(r));
                assert(ranges_of(front).push(r).drop_last() == ranges_of(front));
                if r != old {
                    assert(rest.push(last).drop_last() == rest);
                    assert(ranges_of(rest) + seq![r] == ranges_of(rest).push(r));
                }
            },
            None => {
                assert(rest.push(last).drop_last() == rest);
            },
        }
    }
}

/// A pool as read holds a range exactly where the range is among the ranges
/// of its address list.
proof fn lemma_read_holds(entries: Seq<PoolEntry>, addresses: Seq<String>, range: V6Net)
    requires
        is_read(entries, addresses),
    ensures
        holds(entries, range) <==> ranges_of(texts(addresses)).contains(range),
{
    let pool = texts(addresses);
    lemma_ranges_are_read_entries(pool, range);
    if holds(entries, range) {
        let i = choose|i: int| 0 <= i < entries.len() && (#[trigger] entries[i]).range == Some(range);
        assert(range_of(pool[i]) == Some(range));
    }
    if ranges_of(pool).contains(range) {
        let i = choose|i: int| 0 <= i < pool.len() && range_of(#[trigger] pool[i]) == Some(range);
        assert(entries[i].range == Some(range));
    }
}

/// The texts of a pool as read, without the entries that are `old`, are the
/// address list without the entries that read as `old`.
proof fn lemma_read_without(entries: Seq<PoolEntry>, addresses: Seq<String>, old: V6Net)
    requires
        is_read(entries, addresses),
    ensures
        texts(entry_texts(entries.filter(not_range(old)))) == without(texts(addresses), old),
        texts(entry_texts(entries)) == texts(addresses),
    decreases entries.len(),
{
    reveal(Seq::filter);
    assert(texts(entry_texts(entries)) =~= texts(addresses));
    if entries.len() > 0 {
        let front = entries.drop_last();
        let before = addresses.drop_last();
        assert forall|i: int| 0 <= i < front.len() implies (#[trigger] front[i]).text == before[i]
            && front[i].range == range_of(before[i]@) by {
            assert(front[i] == entries[i]);
        }
        lemma_read_without(front, before, old);
        assert(texts(addresses).drop_last() == texts(before));
        assert(texts(addresses).last() == entries.last().text@);
        assert(range_of(texts(addresses).last()) == entries.last().range);
        if entries.last().range != Some(old) {
            let kept = front.filter(not_range(old));
            assert(texts(entry_texts(kept.push(entries.last()))) == texts(entry_texts(kept)).push(
                entries.last().text@,
            ));
        }
    } else {
        assert(texts(entry_texts(entries.filter(not_range(old)))) == without(
            texts(addresses),
            old,
        ));
    }
}

/// Reads an address list: each entry with the IPv6 range that it is.
pub fn read_pool(addresses: &Vec<String>) -> (entries: Vec<PoolEntry>)
    ensures
        is_read(entries@, addresses@),
        forall|i: int|
            0 <= i < entries.len() ==> ((#[trigger] entries[i]).range matches Some(range)
                ==> range.wf()),
{
    let mut entries: Vec<PoolEntry> = Vec::new();
    let mut i: usize = 0;
    while i < addresses.len()
        invariant
            i <= addresses.len(),
            is_read(entries@, addresses@.take(i as int)),
            forall|k: int|
                0 <= k < entries.len() ==> ((#[trigger] entries[k]).range matches Some(range)
                    ==> range.wf()),
        decreases addresses.len() - i,
    {
        let range = match V6Net::from_str(addresses[i].as_str()) {
            Ok(range) => Some(range),
            Err(_) => None,
        };
        entries.push(PoolEntry { text: addresses[i].clone(), range });
        i += 1;
    }
    proof {
        assert(addresses@.take(i as int) == addresses@);
    }
    entries
}

/// Whether the range is in the pool; the index of its last occurrence if so.
pub fn net_in_pool(pool: &Vec<PoolEntry>, addr: &V6Net) -> (pos: Option<usize>)
    ensures
        pos is Some <==> holds(pool@, *addr),
        pos matches Some(i) ==> {
            &&& i < pool.len()
            &&& pool[i as int].range == Some(*addr)
            &&& forall|j: int| i < j < pool.len() ==> (#[trigger] pool[j]).range != Some(*addr)
        },
{
    let mut pos: Option<usize> = None;
    let mut i: usize = 0;
    while i < pool.len()
        invariant
            i <= pool.len(),
            match pos {
                Some(k) => {
                    &&& k < i
                    &&& pool[k as int].range == Some(*addr)
                    &&& forall|j: int| k < j < i ==> (#[trigger] pool[j]).range != Some(*addr)
                },
                None => forall|j: int| 0 <= j < i ==> (#[trigger] pool[j]).range != Some(*addr),
            },
        decreases pool.len() - i,
    {
        let found = match pool[i].range {
            Some(range) => range == *addr,
            None => false,
        };
        if found {
            pos = Some(i);
        }
        i += 1;
    }
    pos
}

/// The texts of the entries that are not the range `old`.
fn texts_without(pool: &Vec<PoolEntry>, old: &V6Net) -> (kept: Vec<String>)
    ensures
        kept@ == entry_texts(pool@.filter(not_range(*old))),
{
    let mut kept: Vec<String> = Vec::new();
    let mut i: usize = 0;
    while i < pool.len()
        invariant
            i <= pool.len(),
            kept@ == entry_texts(pool@.take(i as int).filter(not_range(*old))),
        decreases pool.len() - i,
    {
        proof {
            reveal(Seq::filter);
            assert(pool@.take(i + 1).drop_last() == pool@.take(i as int));
        }
        let is_old = match pool[i].range {
            Some(range) => range == *old,
            None => false,
        };
        if !is_old {
            let ghost before = pool@.take(i as int).filter(not_range(*old));
            kept.push(pool[i].text.clone());
            proof {
                assert(kept@ == entry_texts(before.push(pool[i as int])));
            }
        }
        i += 1;
    }
    proof {
        assert(pool@.take(i as int) == pool@);
    }
    kept
}

/// The address list to write so that `new` stands in the pool in place of
/// `old`, given the texts of the two; nothing where the pool is to stay as
/// it is. Which of the two ranges the pool holds decides: with neither there
/// is nothing to replace; with `new` alone all is done; with both, `old`
/// leaves; with `old` alone, `old` leaves and `new_text` is added at the end.
pub fn replace_in_pool(
    pool: &Vec<PoolEntry>,
    old: &V6Net,
    new: &V6Net,
    old_text: String,
    new_text: String,
) -> (r: Result<Option<Vec<String>>, K8sError>)
    ensures
        match (holds(pool@, *old), holds(pool@, *new)) {
            (false, false) => r matches Err(K8sError::RangeNotFound(o, n)) && o == old_text && n
                == new_text,
            (false, true) => r matches Ok(None),
            (true, true) => r matches Ok(Some(patch)) && patch@ == entry_texts(
                pool@.filter(not_range(*old)),
            ),
            (true, false) => r matches Ok(Some(patch)) && patch@ == entry_texts(
                pool@.filter(not_range(*old)),
            ).push(new_text),
        },
{
    match (net_in_pool(pool, old).is_some(), net_in_pool(pool, new).is_some()) {
        (false, false) => Err(K8sError::RangeNotFound(old_text, new_text)),
        (false, true) => Ok(None),
        (true, true) => Ok(Some(texts_without(pool, old))),
        (true, false) => {
            let mut patched_addrs = texts_without(pool, old);
            patched_addrs.push(new_text);
            Ok(Some(patched_addrs))
        },
    }
}

/// The address list to write so that `range` stands in the pool, given its
/// text: the pool's entries with `text` added at the end; nothing where the
/// pool holds `range` already.
pub fn insert_in_pool(pool: &Vec<PoolEntry>, range: &V6Net, text: String) -> (r: Option<
    Vec<String>,
>)
    ensures
        match r {
            None => holds(pool@, *range),
            Some(patch) => !holds(pool@, *range) && patch@ == entry_texts(pool@).push(text),
        },
{
    if net_in_pool(pool, range).is_some() {
        return None;
    }
    let mut patched_addrs: Vec<String> = Vec::new();
    let mut i: usize = 0;
    while i < pool.len()
        invariant
            i <= pool.len(),
            patched_addrs@ == entry_texts(pool@.take(i as int)),
        decreases pool.len() - i,
    {
        patched_addrs.push(pool[i].text.clone());
        proof {
            assert(patched_addrs@ == entry_texts(pool@.take(i + 1)));
        }
        i += 1;
    }
    proof {
        assert(pool@.take(i as int) == pool@);
    }
    patched_addrs.push(text);
    Some(patched_addrs)
}

/// One address pool of the cluster, by its name.
pub struct KubeClient {
    name: String,
}

impl KubeClient {
    /// The name of the pool.
    pub closed spec fn name(&self) -> Seq<char> {
        self.name@
    }

    /// The client for the pool called `name`, given what the cluster
    /// answered when asked for the resource kind of pools: whether it is
    /// there, or the cause of the failure. Whether the pool itself exists is
    /// not asked: it may be made later.
    pub fn try_new(name: String, schema: Result<bool, String>) -> (r: Result<
        KubeClient,
        ConnectorError,
    >)
        ensures
            match schema {
                Ok(true) => r matches Ok(client) && client.name() == name@,
                Ok(false) => r matches Err(e) && e@ == crd_not_found_text(),
                Err(cause) => r matches Err(e) && e@ == cause@,
            },
    {
        match schema {
            Ok(true) => Ok(KubeClient { name }),
            Ok(false) => Err(ConnectorError::from(K8sError::CRDNotFound)),
            Err(cause) => Err(ConnectorError::new(cause)),
        }
    }

    /// The name of the pool.
    pub fn pool_name(&self) -> (name: &str)
        ensures
            name@ == self.name(),
    {
        self.name.as_str()
    }

    /// The address list of the pool, given what the cluster answered when
    /// asked for the pool: its address list, nothing where it has no such
    /// pool, or the cause of the failure.
    pub fn find_pool(&self, fetched: Result<Option<Vec<String>>, String>) -> (r: Result<
        Vec<String>,
        K8sError,
    >)
        ensures
            match r {
                Ok(addresses) => fetched == Ok::<Option<Vec<String>>, String>(Some(addresses)),
                Err(K8sError::PoolNotFound(name)) => fetched == Ok::<Option<Vec<String>>, String>(
                    None,
                ) && name@ == self.name(),
                Err(K8sError::ConnectionError(cause)) => fetched == Err::<
                    Option<Vec<String>>,
                    String,
                >(cause),
                Err(_) => false,
            },
    {
        match fetched {
            Ok(Some(addresses)) => Ok(addresses),
            Ok(None) => Err(K8sError::PoolNotFound(self.name.clone())),
            Err(cause) => Err(K8sError::ConnectionError(cause)),
        }
    }

    /// The IPv6 ranges of the pool, in the pool's order. Entries that are no
    /// IPv6 range are left out.
    pub fn v6_ranges(&self, fetched: Result<Option<Vec<String>>, String>) -> (r: Result<
        Vec<V6Net>,
        K8sError,
    >)
        ensures
            match r {
                Ok(ranges) => fetched matches Ok(Some(addresses)) && ranges@ == ranges_of(
                    texts(addresses@),
                ),
                Err(K8sError::PoolNotFound(name)) => fetched == Ok::<Option<Vec<String>>, String>(
                    None,
                ) && name@ == self.name(),
                Err(K8sError::ConnectionError(cause)) => fetched == Err::<
                    Option<Vec<String>>,
                    String,
                >(cause),
                Err(_) => false,
            },
            r matches Ok(ranges) ==> forall|i: int|
                0 <= i < ranges.len() ==> (#[trigger] ranges[i]).wf(),
    {
        let addresses = self.find_pool(fetched)?;
        let mut ranges: Vec<V6Net> = Vec::new();
        let mut i: usize = 0;
        while i < addresses.len()
            invariant
                i <= addresses.len(),
                ranges@ == ranges_of(texts(addresses@).take(i as int)),
                forall|k: int| 0 <= k < ranges.len() ==> (#[trigger] ranges[k]).wf(),
            decreases addresses.len() - i,
        {
            proof {
                let pool = texts(addresses@);
                assert(pool.take(i + 1).drop_last() == pool.take(i as int));
                assert(pool.take(i + 1).last() == addresses[i as int]@);
            }
            match V6Net::from_str(addresses[i].as_str()) {
                Ok(range) => {
                    ranges.push(range);
                },
                Err(_) => {},
            }
            i += 1;
        }
        proof {
            assert(texts(addresses@).take(i as int) == texts(addresses@));
        }
        Ok(ranges)
    }

    /// The address list to write so that `new` stands in the pool in place
    /// of `old`; nothing where the pool is to stay as it is. Which of the two
    /// ranges the pool holds decides: with neither there is nothing to
    /// replace; with `new` alone all is done; with both, `old` leaves; with
    /// `old` alone, `old` leaves and `new` is added at the end. An entry is a
    /// range where it reads as that range, however it is written. The ranges
    /// of the pool change as `replaced` says.
    pub fn replace(
        &self,
        fetched: Result<Option<Vec<String>>, String>,
        old: &V6Net,
        new: &V6Net,
    ) -> (r: Result<Option<Vec<String>>, K8sError>)
        requires
            old.wf(),
            new.wf(),
        ensures
            match fetched {
                Err(cause) => r matches Err(K8sError::ConnectionError(c)) && c == cause,
                Ok(None) => r matches Err(K8sError::PoolNotFound(name)) && name@ == self.name(),
                Ok(Some(addresses)) => {
                    let pool = texts(addresses@);
                    let held = ranges_of(pool);
                    let old_text = cidr_text(old.addr, old.prefix_len);
                    let new_text = cidr_text(new.addr, new.prefix_len);
                    &&& match (held.contains(*old), held.contains(*new)) {
                        (false, false) => r matches Err(K8sError::RangeNotFound(o, n)) && o@
                            == old_text && n@ == new_text,
                        (false, true) => r matches Ok(None),
                        (true, true) => r matches Ok(Some(patch)) && texts(patch@) == without(
                            pool,
                            *old,
                        ),
                        (true, false) => r matches Ok(Some(patch)) && texts(patch@) == without(
                            pool,
                            *old,
                        ).push(new_text),
                    }
                    &&& match r {
                        Ok(Some(patch)) => ranges_of(texts(patch@)) == replaced(held, *old, *new),
                        Ok(None) => held == replaced(held, *old, *new),
                        Err(_) => true,
                    }
                },
            },
    {
        let addresses = self.find_pool(fetched)?;
        let pool = read_pool(&addresses);
        let old_text = old.to_string();
        let new_text = new.to_string();
        proof {
            lemma_read_holds(pool@, addresses@, *old);
            lemma_read_holds(pool@, addresses@, *new);
            lemma_read_without(pool@, addresses@, *old);
            lemma_ranges_without(texts(addresses@), *old);
            lemma_ranges_push(without(texts(addresses@), *old), *new);
        }
        let r = replace_in_pool(&pool, old, new, old_text, new_text);
        proof {
            if let Ok(Some(patch)) = &r {
                if !holds(pool@, *new) {
                    let kept = entry_texts(pool@.filter(not_range(*old)));
                    assert(texts(patch@) == texts(kept).push(cidr_text(new.addr, new.prefix_len)));
                }
            }
        }
        r
    }

    /// The address list to write so that `range` stands in the pool: the
    /// pool's entries with `range` added at the end; nothing where the pool
    /// holds `range` already, however it is written there. The ranges of the
    /// pool change as `inserted` says.
    pub fn insert(&self, fetched: Result<Option<Vec<String>>, String>, range: &V6Net) -> (r: Result<
        Option<Vec<String>>,
        K8sError,
    >)
        requires
            range.wf(),
        ensures
            match fetched {
                Err(cause) => r matches Err(K8sError::ConnectionError(c)) && c == cause,
                Ok(None) => r matches Err(K8sError::PoolNotFound(name)) && name@ == self.name(),
                Ok(Some(addresses)) => {
                    let pool = texts(addresses@);
                    let held = ranges_of(pool);
                    &&& if held.contains(*range) {
                        r matches Ok(None)
                    } else {
                        r matches Ok(Some(patch)) && texts(patch@) == pool.push(
                            cidr_text(range.addr, range.prefix_len),
                        )
                    }
                    &&& match r {
                        Ok(Some(patch)) => ranges_of(texts(patch@)) == inserted(held, *range),
                        Ok(None) => held == inserted(held, *range),
                        Err(_) => false,
                    }
                },
            },
    {
        let addresses = self.find_pool(fetched)?;
        let pool = read_pool(&addresses);
        let text = range.to_string();
        proof {
            lemma_read_holds(pool@, addresses@, *range);
            lemma_read_without(pool@, addresses@, *range);
            lemma_ranges_push(texts(addresses@), *range);
        }
        let patch = insert_in_pool(&pool, range, text);
        proof {
            if let Some(list) = &patch {
                assert(texts(list@) == texts(entry_texts(pool@)).push(
                    cidr_text(range.addr, range.prefix_len),
                ));
            }
        }
        Ok(patch)
    }
}

} // verus!
