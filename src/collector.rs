//! The decisions of one scrape and of the collection cycle: which replies make a
//! scrape, what the registry records afterwards, and when the periodic cleanup runs.
use crate::parse::{
    conntrack_parsed, interface_matches, number_of, parse_connection_tracking, parse_interfaces, parse_system, rows_with,
    system_row, text_or,
};
use crate::sentence::row_get;
use crate::registry::{
    gauge_of, inc, only_scrape_changed, same_globals, scrape_applied, scrape_or_empty, MetricsRegistry,
    RouterLabels, ScrapeState,
};
use crate::sentence::Sentence;
use crate::types::{ConnectionTrackingStats, RouterMetrics};
use crate::wireguard::{
    parse_wireguard_interfaces, parse_wireguard_peers, peer_matches, peer_rows, wg_interface_matches,
};
use vstd::prelude::*;

verus! {

/// Cycles between two runs of the periodic cleanup.
pub const CLEANUP_EVERY_CYCLES: u64 = 20;

/// Age after which a dynamic label tuple is dropped, in milliseconds (30 minutes).
pub const DYNAMIC_LABEL_TTL_MS: u64 = 1_800_000;

/// Longest a single scrape may take, in milliseconds.
pub const SCRAPE_TIMEOUT_MS: u64 = 30_000;

/// Replies of one scrape, one per command; `None` where the command failed.
pub struct Replies {
    pub system: Option<Vec<Sentence>>,
    pub interfaces: Option<Vec<Sentence>>,
    pub conntrack_v4: Option<Vec<Sentence>>,
    pub conntrack_v6: Option<Vec<Sentence>>,
    pub wireguard_interfaces: Option<Vec<Sentence>>,
    pub wireguard_peers: Option<Vec<Sentence>>,
}

/// Rows of an optional reply; none where the command failed.
pub open spec fn rows_of(r: Option<Vec<Sentence>>) -> Seq<Sentence> {
    match r {
        Some(v) => v@,
        None => Seq::empty(),
    }
}

fn rows_or_empty(r: &Option<Vec<Sentence>>) -> (out: &[Sentence])
    ensures
        out@ == rows_of(*r),
{
    match r {
        Some(v) => v.as_slice(),
        None => {
            let empty: &[Sentence] = &[];
            assert(empty@ =~= Seq::<Sentence>::empty());
            empty
        },
    }
}

/// Whether the primary commands, system resources and interfaces, both answered.
pub open spec fn primary_ok(r: Replies) -> bool {
    r.system is Some && r.interfaces is Some
}

/// Builds the record of one scrape. Without both primary replies the scrape failed;
/// an optional command that failed gives empty data for its domain.
pub fn assemble_metrics(router_name: &str, replies: &Replies, unix_now: u64) -> (r: Option<RouterMetrics>)
    ensures
        r is Some <==> primary_ok(*replies),
        r matches Some(m) ==> {
            &&& m.router_name@ == router_name@
            &&& m.system.version@ == text_or(row_get(system_row(rows_of(replies.system)), "version"@), "unknown"@)
            &&& m.system.board_name@ == text_or(row_get(system_row(rows_of(replies.system)), "board-name"@), "unknown"@)
            &&& m.system.uptime@ == text_or(row_get(system_row(rows_of(replies.system)), "uptime"@), "0s"@)
            &&& m.system.cpu_load == number_of(row_get(system_row(rows_of(replies.system)), "cpu-load"@))
            &&& m.system.free_memory == number_of(row_get(system_row(rows_of(replies.system)), "free-memory"@))
            &&& m.system.total_memory == number_of(row_get(system_row(rows_of(replies.system)), "total-memory"@))
            &&& m.interfaces@.len() == rows_with(rows_of(replies.interfaces), "name"@).len()
            &&& forall|i: int| 0 <= i < m.interfaces@.len() ==> interface_matches(
                #[trigger] m.interfaces@[i],
                rows_with(rows_of(replies.interfaces), "name"@)[i],
            )
            &&& m.wireguard_interfaces@.len() == rows_with(rows_of(replies.wireguard_interfaces), "name"@).len()
            &&& forall|i: int| 0 <= i < m.wireguard_interfaces@.len() ==> wg_interface_matches(
                #[trigger] m.wireguard_interfaces@[i],
                rows_with(rows_of(replies.wireguard_interfaces), "name"@)[i],
            )
            &&& m.wireguard_peers@.len() == peer_rows(rows_of(replies.wireguard_peers)).len()
            &&& forall|i: int| 0 <= i < m.wireguard_peers@.len() ==> peer_matches(
                #[trigger] m.wireguard_peers@[i],
                peer_rows(rows_of(replies.wireguard_peers))[i],
                unix_now,
            )
            &&& exists|v4: Seq<ConnectionTrackingStats>, v6: Seq<ConnectionTrackingStats>|
                #![trigger conntrack_parsed(rows_of(replies.conntrack_v4), "ipv4"@, v4), conntrack_parsed(rows_of(replies.conntrack_v6), "ipv6"@, v6)]
                conntrack_parsed(rows_of(replies.conntrack_v4), "ipv4"@, v4) && conntrack_parsed(
                    rows_of(replies.conntrack_v6),
                    "ipv6"@,
                    v6,
                ) && m.connection_tracking@ == v4 + v6
        },
{
    match (&replies.system, &replies.interfaces) {
        (Some(system), Some(interfaces)) => {
            let mut ct = parse_connection_tracking(rows_or_empty(&replies.conntrack_v4), "ipv4");
            let mut ct6 = parse_connection_tracking(rows_or_empty(&replies.conntrack_v6), "ipv6");
            let ghost a = ct@;
            let ghost b = ct6@;
            ct.append(&mut ct6);
            assert(ct@ == a + b);
            Some(
                RouterMetrics {
                    router_name: crate::text::owned(router_name),
                    interfaces: parse_interfaces(interfaces.as_slice()),
                    system: parse_system(system.as_slice()),
                    connection_tracking: ct,
                    wireguard_interfaces: parse_wireguard_interfaces(rows_or_empty(&replies.wireguard_interfaces)),
                    wireguard_peers: parse_wireguard_peers(rows_or_empty(&replies.wireguard_peers), unix_now),
                },
            )
        },
        _ => None,
    }
}

/// A router's scrape bookkeeping after one scrape: a success counts one more success,
/// stamps `unix_now` and ends the run of failures; a failure counts one more error and
/// lengthens the run; either way the duration is set, and the pool's error count where
/// it is known.
pub open spec fn scrape_recorded(
    s: ScrapeState,
    success: bool,
    duration_ms: u64,
    unix_now: u64,
    pool_errors: Option<u32>,
) -> ScrapeState {
    let counted = if success {
        ScrapeState {
            success: inc(s.success),
            last_success_timestamp: Some(gauge_of(unix_now)),
            failure_streak: 0,
            ..s
        }
    } else {
        ScrapeState { errors: inc(s.errors), failure_streak: inc(s.failure_streak), ..s }
    };
    ScrapeState {
        duration_ms: Some(gauge_of(duration_ms)),
        connection_errors: match pool_errors {
            Some(e) => Some(e as i64),
            None => counted.connection_errors,
        },
        ..counted
    }
}

/// Records the end of one scrape of `router`: a successful scrape updates every family
/// from its record and counts a success at Unix time `unix_now`, a failed one counts an
/// error; either way the duration is set, and the pool's error count of the device
/// where the pool knows it.
pub fn finish_scrape(
    registry: &mut MetricsRegistry,
    router: &str,
    metrics: Option<&RouterMetrics>,
    duration_ms: u64,
    unix_now: u64,
    now: u64,
    pool_errors: Option<u32>,
)
    requires
        old(registry).wf(),
        metrics matches Some(m) ==> m.router_name@ == router@,
    ensures
        final(registry).wf(),
        metrics matches Some(m) ==> scrape_applied(*old(registry), *final(registry), *m, now),
        metrics is None ==> only_scrape_changed(*old(registry), *final(registry)),
        same_globals(*old(registry), *final(registry)),
        final(registry).scrape.view() == old(registry).scrape.view().insert(
            seq![router@],
            scrape_recorded(
                scrape_or_empty(old(registry).scrape.view(), router@),
                metrics is Some,
                duration_ms,
                unix_now,
                pool_errors,
            ),
        ),
{
    let labels = RouterLabels { router: crate::text::owned(router) };
    match metrics {
        Some(m) => {
            registry.update_metrics(m, now);
            registry.record_scrape_success(&labels, unix_now);
        },
        None => {
            registry.record_scrape_error(&labels);
        },
    }
    registry.record_scrape_duration(&labels, duration_ms);
    match pool_errors {
        Some(e) => registry.update_connection_errors(&labels, e),
        None => {},
    }
    proof {
        let k = seq![router@];
        let o = old(registry).scrape.view();
        assert(scrape_or_empty(o.insert(k, scrape_recorded(scrape_or_empty(o, router@), metrics is Some, duration_ms, unix_now, pool_errors)), router@)
            == scrape_recorded(scrape_or_empty(o, router@), metrics is Some, duration_ms, unix_now, pool_errors));
        assert(final(registry).scrape.view() =~= o.insert(
            k,
            scrape_recorded(scrape_or_empty(o, router@), metrics is Some, duration_ms, unix_now, pool_errors),
        ));
    }
}

/// Whether the periodic cleanup runs after cycle `cycle` (counted from 1).
pub fn cleanup_due(cycle: u64) -> (r: bool)
    ensures
        r == (cycle > 0 && cycle % CLEANUP_EVERY_CYCLES == 0),
{
    cycle > 0 && cycle % CLEANUP_EVERY_CYCLES == 0
}

} // verus!
