//! The reconciler. Each run lists the pool's ranges, finds the one it
//! manages, observes the current network, computes the range that the pool
//! should hold, and asks for at most one write. It does none of this itself:
//! it is told what happened and answers with what to do next.
use crate::config::Config;
use crate::metallb::{inserted, other_than, replaced, ConnectorError};
use crate::net::{netmask, netmask_of, InvalidPrefixLen, V6Net};
use crate::prefix::SourceError;
use vstd::prelude::*;

verus! {

/// The range that the pool should hold: the network part of `dyn_net`, the
/// host part and the prefix length of `mlb_range`.
pub open spec fn target_range(dyn_net: V6Net, mlb_range: V6Net, network_length: u8) -> V6Net {
    V6Net {
        addr: dyn_net.network_part(network_length) | mlb_range.host_part(network_length),
        prefix_len: mlb_range.prefix_len,
    }
}

/// Whether `range` is the range that stands for `host_range` in a pool: their
/// host parts are the same.
pub open spec fn is_managed(range: V6Net, host_range: V6Net, network_length: u8) -> bool {
    range.host_part(network_length) == host_range.host_part(network_length)
}

/// The first of `ranges` that is managed, if there is one.
pub open spec fn managed(ranges: Seq<V6Net>, host_range: V6Net, network_length: u8) -> Option<
    V6Net,
>
    decreases ranges.len(),
{
    if ranges.len() == 0 {
        None
    } else {
        match managed(ranges.drop_last(), host_range, network_length) {
            Some(first) => Some(first),
            None => if is_managed(ranges.last(), host_range, network_length) {
                Some(ranges.last())
            } else {
                None
            },
        }
    }
}

/// Computes `target_range`. Fails where the prefix length of `mlb_range` is
/// above 128.
pub fn generate_target_range(dyn_net: &V6Net, mlb_range: &V6Net, network_length: u8) -> (r: Result<
    V6Net,
    InvalidPrefixLen,
>)
    ensures
        match r {
            Ok(target) => mlb_range.wf() && target == target_range(
                *dyn_net,
                *mlb_range,
                network_length,
            ),
            Err(_) => !mlb_range.wf(),
        },
{
    let mask = netmask_of(network_length);
    let net_sanitized = dyn_net.addr & mask;
    let range_sanitized = mlb_range.addr & !mask;
    V6Net::new(net_sanitized | range_sanitized, mlb_range.prefix_len)
}

/// A managed range stays the first managed one when more ranges follow.
proof fn lemma_managed_prefix(ranges: Seq<V6Net>, n: int, host_range: V6Net, network_length: u8)
    requires
        0 <= n <= ranges.len(),
        managed(ranges.take(n), host_range, network_length) is Some,
    ensures
        managed(ranges, host_range, network_length) == managed(
            ranges.take(n),
            host_range,
            network_length,
        ),
    decreases ranges.len() - n,
{
    if n < ranges.len() {
        assert(ranges.take(n + 1).drop_last() == ranges.take(n));
        lemma_managed_prefix(ranges, n + 1, host_range, network_length);
    } else {
        assert(ranges.take(n) == ranges);
    }
}

/// Finds the managed range among `ranges`.
pub fn find_dynamic_mlb_range<'a>(
    ranges: &'a [V6Net],
    host_range: &V6Net,
    network_length: u8,
) -> (r: Option<&'a V6Net>)
    ensures
        match r {
            Some(found) => managed(ranges@, *host_range, network_length) == Some(*found),
            None => managed(ranges@, *host_range, network_length) is None,
        },
{
    let mask = netmask_of(network_length);
    let mut i: usize = 0;
    while i < ranges.len()
        invariant
            i <= ranges.len(),
            mask == netmask(network_length),
            managed(ranges@.take(i as int), *host_range, network_length) is None,
        decreases ranges.len() - i,
    {
        proof {
            assert(ranges@.take(i + 1).drop_last() == ranges@.take(i as int));
        }
        let host_part = ranges[i].addr & !mask;
        if host_part == host_range.addr & !mask {
            proof {
                lemma_managed_prefix(ranges@, i + 1, *host_range, network_length);
            }
            return Some(&ranges[i]);
        }
        i += 1;
    }
    proof {
        assert(ranges@.take(i as int) == ranges@);
    }
    None
}

/// A write to the pool.
#[derive(Clone, Copy, Debug, PartialEq, Eq, Structural)]
pub enum Change {
    /// Add the range.
    Insert(V6Net),
    /// Put the second range in the place of the first.
    Replace(V6Net, V6Net),
}

/// How a run ended well.
#[derive(Clone, Copy, Debug, PartialEq, Eq, Structural)]
pub enum Outcome {
    /// The pool holds the target already.
    Unchanged(V6Net),
    /// The change was computed and, this being a dry run, not written.
    Planned(Change),
    /// The change was written.
    Applied(Change),
}

/// Why a run failed.
#[derive(Debug)]
pub enum RunError {
    /// The pool could not be read or written.
    Connector(ConnectorError),
    /// No network could be observed.
    Source(SourceError),
    /// The target has no valid prefix length.
    PrefixLen(InvalidPrefixLen),
}

impl View for RunError {
    type V = Seq<char>;

    /// The message of the error.
    open spec fn view(&self) -> Seq<char> {
        match self {
            RunError::Connector(e) => e@,
            RunError::Source(e) => e@,
            RunError::PrefixLen(_) => "invalid IP prefix length"@,
        }
    }
}

impl RunError {
    /// The message of the error.
    pub fn to_string(&self) -> (text: String)
        ensures
            text@ == self@,
    {
        match self {
            RunError::Connector(e) => e.to_string(),
            RunError::Source(e) => e.to_string(),
            RunError::PrefixLen(e) => e.to_string(),
        }
    }
}

/// What the reconciler waits for.
#[derive(Clone, Copy, Debug, PartialEq, Eq, Structural)]
pub enum State {
    /// The next run.
    Idle,
    /// The ranges of the pool.
    Listing,
    /// The current network; with the managed range that the listing showed.
    Observing(Option<V6Net>),
    /// The end of the write.
    Writing(Change),
}

/// What happened.
#[derive(Debug)]
pub enum Event {
    /// It is time for a run.
    Wake,
    /// The pool was asked for its IPv6 ranges.
    Ranges(Result<Vec<V6Net>, ConnectorError>),
    /// The source was asked for the current network.
    Network(Result<V6Net, SourceError>),
    /// The pool was asked to take a change.
    Written(Result<(), ConnectorError>),
}

/// What to do next.
#[derive(Debug)]
pub enum Action {
    /// Ask the pool for its IPv6 ranges.
    ListRanges,
    /// Ask the source for the current network.
    ObserveNetwork,
    /// Ask the pool to take the change.
    Apply(Change),
    /// The run is over: report how it ended and wait before the next one.
    Pause { outcome: Result<Outcome, RunError>, seconds: u64 },
}

/// The write that brings a pool with the managed range `current` to hold
/// `target`: none where it holds `target` already.
pub open spec fn change_for(current: Option<V6Net>, target: V6Net) -> Option<Change> {
    match current {
        Some(range) => if range == target {
            None
        } else {
            Some(Change::Replace(range, target))
        },
        None => Some(Change::Insert(target)),
    }
}

/// The write that a run asks for, given the ranges that the pool listed and
/// the network that was observed.
pub open spec fn decision(ranges: Seq<V6Net>, observed: V6Net, config: Config) -> Option<Change> {
    change_for(
        managed(ranges, config.metallb_host_range, config.network_length),
        target_range(observed, config.metallb_host_range, config.network_length),
    )
}

/// The end of a run.
pub open spec fn pause(outcome: Result<Outcome, RunError>, config: Config) -> (State, Action) {
    (State::Idle, Action::Pause { outcome, seconds: config.interval })
}

/// The step after the network was observed.
pub open spec fn decided(current: Option<V6Net>, observed: V6Net, config: Config) -> (
    State,
    Action,
) {
    let target = target_range(observed, config.metallb_host_range, config.network_length);
    if !config.metallb_host_range.wf() {
        pause(Err(RunError::PrefixLen(InvalidPrefixLen)), config)
    } else {
        match change_for(current, target) {
            None => pause(Ok(Outcome::Unchanged(target)), config),
            Some(change) => if config.dry_run {
                pause(Ok(Outcome::Planned(change)), config)
            } else {
                (State::Writing(change), Action::Apply(change))
            },
        }
    }
}

/// The reconciler's step: the state that follows `state` on `event`, and
/// what to do then. None where the event is not what the state waits for.
pub open spec fn next(state: State, event: Event, config: Config) -> Option<(State, Action)> {
    match (state, event) {
        (State::Idle, Event::Wake) => Some((State::Listing, Action::ListRanges)),
        (State::Listing, Event::Ranges(Ok(ranges))) => Some(
            (
                State::Observing(
                    managed(ranges@, config.metallb_host_range, config.network_length),
                ),
                Action::ObserveNetwork,
            ),
        ),
        (State::Listing, Event::Ranges(Err(e))) => Some(
            pause(Err(RunError::Connector(e)), config),
        ),
        (State::Observing(current), Event::Network(Ok(observed))) => Some(
            decided(current, observed, config),
        ),
        (State::Observing(_), Event::Network(Err(e))) => Some(
            pause(Err(RunError::Source(e)), config),
        ),
        (State::Writing(change), Event::Written(Ok(_))) => Some(
            pause(Ok(Outcome::Applied(change)), config),
        ),
        (State::Writing(_), Event::Written(Err(e))) => Some(
            pause(Err(RunError::Connector(e)), config),
        ),
        _ => None,
    }
}

/// Computes `change_for`.
pub fn plan_change(current: Option<V6Net>, target: V6Net) -> (change: Option<Change>)
    ensures
        change == change_for(current, target),
{
    match current {
        Some(range) => if range == target {
            None
        } else {
            Some(Change::Replace(range, target))
        },
        None => Some(Change::Insert(target)),
    }
}

/// Takes one step of the reconciler.
pub fn step(state: State, event: Event, config: &Config) -> (r: Option<(State, Action)>)
    ensures
        r == next(state, event, *config),
{
    match (state, event) {
        (State::Idle, Event::Wake) => Some((State::Listing, Action::ListRanges)),
        (State::Listing, Event::Ranges(Ok(ranges))) => {
            let current = match find_dynamic_mlb_range(
                ranges.as_slice(),
                &config.metallb_host_range,
                config.network_length,
            ) {
                Some(found) => Some(*found),
                None => None,
            };
            Some((State::Observing(current), Action::ObserveNetwork))
        },
        (State::Listing, Event::Ranges(Err(e))) => Some(
            (
                State::Idle,
                Action::Pause { outcome: Err(RunError::Connector(e)), seconds: config.interval },
            ),
        ),
        (State::Observing(current), Event::Network(Ok(observed))) => {
            match generate_target_range(
                &observed,
                &config.metallb_host_range,
                config.network_length,
            ) {
                Err(e) => Some(
                    (
                        State::Idle,
                        Action::Pause {
                            outcome: Err(RunError::PrefixLen(e)),
                            seconds: config.interval,
                        },
                    ),
                ),
                Ok(target) => match plan_change(current, target) {
                    None => Some(
                        (
                            State::Idle,
                            Action::Pause {
                                outcome: Ok(Outcome::Unchanged(target)),
                                seconds: config.interval,
                            },
                        ),
                    ),
                    Some(change) => if config.dry_run {
                        Some(
                            (
                                State::Idle,
                                Action::Pause {
                                    outcome: Ok(Outcome::Planned(change)),
                                    seconds: config.interval,
                                },
                            ),
                        )
                    } else {
                        Some((State::Writing(change), Action::Apply(change)))
                    },
                },
            }
        },
        (State::Observing(_), Event::Network(Err(e))) => Some(
            (
                State::Idle,
                Action::Pause { outcome: Err(RunError::Source(e)), seconds: config.interval },
            ),
        ),
        (State::Writing(change), Event::Written(Ok(_))) => Some(
            (
                State::Idle,
                Action::Pause { outcome: Ok(Outcome::Applied(change)), seconds: config.interval },
            ),
        ),
        (State::Writing(_), Event::Written(Err(e))) => Some(
            (
                State::Idle,
                Action::Pause { outcome: Err(RunError::Connector(e)), seconds: config.interval },
            ),
        ),
        _ => None,
    }
}

/// The pool's ranges after a change was written with success.
pub open spec fn after(pool: Seq<V6Net>, change: Change) -> Seq<V6Net> {
    match change {
        Change::Insert(range) => inserted(pool, range),
        Change::Replace(old, new) => replaced(pool, old, new),
    }
}

/// Whether one replace brings the pool to rest: every managed range of the
/// pool is the first managed one, or the target, or stands behind the target.
pub open spec fn settles(pool: Seq<V6Net>, observed: V6Net, config: Config) -> bool {
    let target = target_range(observed, config.metallb_host_range, config.network_length);
    forall|i: int|
        0 <= i < pool.len() && is_managed(
            #[trigger] pool[i],
            config.metallb_host_range,
            config.network_length,
        ) ==> {
            ||| Some(pool[i]) == managed(
                pool,
                config.metallb_host_range,
                config.network_length,
            )
            ||| pool[i] == target
            ||| exists|j: int| 0 <= j < i && pool[j] == target
        }
}

/// The target has the network part of the observed network, the host part
/// of the host range, and the prefix length of the host range. So it is
/// managed, whatever was observed.
pub proof fn lemma_target_parts(dyn_net: V6Net, mlb_range: V6Net, network_length: u8)
    ensures
        target_range(dyn_net, mlb_range, network_length).network_part(network_length)
            == dyn_net.network_part(network_length),
        target_range(dyn_net, mlb_range, network_length).host_part(network_length)
            == mlb_range.host_part(network_length),
        target_range(dyn_net, mlb_range, network_length).prefix_len == mlb_range.prefix_len,
        is_managed(target_range(dyn_net, mlb_range, network_length), mlb_range, network_length),
{
    let m = netmask(network_length);
    let a = dyn_net.addr;
    let b = mlb_range.addr;
    assert(((a & m) | (b & !m)) & m == a & m) by (bit_vector);
    assert(((a & m) | (b & !m)) & !m == b & !m) by (bit_vector);
}

/// Where no range is managed, none of the ranges matches; where one is, it
/// is among the ranges, matches, and no range before it does.
pub proof fn lemma_managed_is_first(ranges: Seq<V6Net>, host_range: V6Net, network_length: u8)
    ensures
        match managed(ranges, host_range, network_length) {
            None => forall|i: int|
                0 <= i < ranges.len() ==> !is_managed(
                    #[trigger] ranges[i],
                    host_range,
                    network_length,
                ),
            Some(first) => exists|i: int|
                0 <= i < ranges.len() && #[trigger] ranges[i] == first && is_managed(
                    first,
                    host_range,
                    network_length,
                ) && forall|j: int|
                    0 <= j < i ==> !is_managed(#[trigger] ranges[j], host_range, network_length),
        },
    decreases ranges.len(),
{
    if ranges.len() > 0 {
        let front = ranges.drop_last();
        lemma_managed_is_first(front, host_range, network_length);
        match managed(front, host_range, network_length) {
            None => {
                assert forall|i: int| 0 <= i < ranges.len() - 1 implies !is_managed(
                    #[trigger] ranges[i],
                    host_range,
                    network_length,
                ) by {
                    assert(ranges[i] == front[i]);
                }
                if is_managed(ranges.last(), host_range, network_length) {
                    assert(ranges[ranges.len() - 1] == ranges.last());
                }
            },
            Some(first) => {
                let i = choose|i: int|
                    0 <= i < front.len() && #[trigger] front[i] == first && is_managed(
                        first,
                        host_range,
                        network_length,
                    ) && forall|j: int|
                        0 <= j < i ==> !is_managed(#[trigger] front[j], host_range, network_length);
                assert(ranges[i] == first);
                assert forall|j: int| 0 <= j < i implies !is_managed(
                    #[trigger] ranges[j],
                    host_range,
                    network_length,
                ) by {
                    assert(ranges[j] == front[j]);
                }
            },
        }
    }
}

/// With `old` taken out of a pool in which every managed range is `old`, the
/// target, or behind the target, the first managed range is the target where
/// the pool holds the target, and there is none where it does not.
proof fn lemma_managed_without(
    pool: Seq<V6Net>,
    old: V6Net,
    target: V6Net,
    host_range: V6Net,
    network_length: u8,
)
    requires
        old != target,
        is_managed(target, host_range, network_length),
        forall|i: int|
            0 <= i < pool.len() && is_managed(#[trigger] pool[i], host_range, network_length) ==> {
                ||| pool[i] == old
                ||| pool[i] == target
                ||| exists|j: int| 0 <= j < i && pool[j] == target
            },
    ensures
        managed(pool.filter(other_than(old)), host_range, network_length) == if pool.contains(
            target,
        ) {
            Some(target)
        } else {
            None
        },
    decreases pool.len(),
{
    reveal(Seq::filter);
    let keep = other_than(old);
    if pool.len() > 0 {
        let front = pool.drop_last();
        let last = pool.last();
        assert forall|i: int|
            0 <= i < front.len() && is_managed(
                #[trigger] front[i],
                host_range,
                network_length,
            ) implies {
            ||| front[i] == old
            ||| front[i] == target
            ||| exists|j: int| 0 <= j < i && front[j] == target
        } by {
            assert(front[i] == pool[i]);
            if pool[i] != old && pool[i] != target {
                let j = choose|j: int| 0 <= j < i && pool[j] == target;
                assert(front[j] == target);
            }
        }
        lemma_managed_without(front, old, target, host_range, network_length);
        if front.contains(target) {
            let k = choose|k: int| 0 <= k < front.len() && front[k] == target;
            assert(pool[k] == target);
        }
        if pool.contains(target) && !front.contains(target) {
            let k = choose|k: int| 0 <= k < pool.len() && pool[k] == target;
            if k < front.len() {
                assert(front[k] == target);
            }
            assert(last == target);
        }
        if last != old {
            assert(front.filter(keep).push(last).drop_last() == front.filter(keep));
            if !front.contains(target) && last != target && is_managed(
                last,
                host_range,
                network_length,
            ) {
                assert(pool[pool.len() - 1] == last);
                let j = choose|j: int| 0 <= j < pool.len() - 1 && pool[j] == target;
                assert(front[j] == target);
            }
            if last == target {
                assert(pool[pool.len() - 1] == target);
            }
        }
    } else {
        assert(!pool.contains(target));
    }
}

/// A second run finds nothing to write. Let a run decide on a change for a
/// pool and an observed network, and let the change be written with success.
/// Then the next run, on the pool as the write left it and with the same
/// network observed, decides on no change. This holds of every pool that one
/// replace brings to rest.
pub proof fn lemma_second_run_writes_nothing(pool: Seq<V6Net>, observed: V6Net, config: Config)
    requires
        settles(pool, observed, config),
    ensures
        match decision(pool, observed, config) {
            Some(change) => decision(after(pool, change), observed, config) is None,
            None => true,
        },
{
    let host_range = config.metallb_host_range;
    let network_length = config.network_length;
    let target = target_range(observed, host_range, network_length);
    lemma_target_parts(observed, host_range, network_length);
    lemma_managed_is_first(pool, host_range, network_length);
    match managed(pool, host_range, network_length) {
        None => {
            if pool.contains(target) {
                let k = choose|k: int| 0 <= k < pool.len() && pool[k] == target;
                assert(is_managed(pool[k], host_range, network_length));
            }
            assert(pool.push(target).drop_last() == pool);
        },
        Some(old) => {
            if old != target {
                let rest = pool.filter(other_than(old));
                lemma_managed_without(pool, old, target, host_range, network_length);
                if !pool.contains(target) {
                    assert(rest.push(target).drop_last() == rest);
                }
            }
        },
    }
}

/// A run asks for a write only after it has listed and observed, and the
/// write ends the run: whatever comes of it, the reconciler pauses next.
pub proof fn lemma_one_write_per_run(state: State, event: Event, config: Config)
    ensures
        next(state, event, config) matches Some((following, Action::Apply(change))) ==> {
            &&& state is Observing
            &&& !config.dry_run
            &&& following == State::Writing(change)
            &&& forall|outcome: Result<(), ConnectorError>|
                (#[trigger] next(following, Event::Written(outcome), config)) matches Some(
                    (State::Idle, Action::Pause { .. }),
                )
        },
{
    if let Some((following, Action::Apply(change))) = next(state, event, config) {
        assert forall|outcome: Result<(), ConnectorError>|
            (#[trigger] next(following, Event::Written(outcome), config)) matches Some(
                (State::Idle, Action::Pause { .. }),
            ) by {
            match outcome {
                Ok(_) => {},
                Err(_) => {},
            }
        }
    }
}

/// Every run ends in the same way: the reconciler is idle again and asks for
/// a pause of the configured seconds, whether the run failed or not.
pub proof fn lemma_pause_is_fixed(state: State, event: Event, config: Config)
    ensures
        next(state, event, config) matches Some((following, Action::Pause { seconds, .. })) ==> {
            following == State::Idle && seconds == config.interval
        },
{
}

} // verus!
