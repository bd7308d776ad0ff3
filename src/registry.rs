//! The metrics registry: every family's series, the delta protocol that drives the
//! interface counters from device totals, reset-on-change of info series, the lifetime
//! of dynamic labels and the cleanup paths.
use crate::duration::{parse_uptime_to_seconds, uptime_seconds};
use crate::table::{clone_labels, labels_eq, labels_view, Table};
use crate::text::{owned, sat_add};
use crate::types::{ConnectionTrackingStats, InterfaceStats, RouterMetrics, WireGuardPeerStats};
use crate::wireguard::opt_view;
use vstd::prelude::*;

verus! {

/// Labels of a per-interface series.
#[derive(Clone, Debug, PartialEq, Eq, Hash)]
pub struct InterfaceLabels {
    pub router: String,
    pub interface: String,
}

/// Labels of a per-device series.
#[derive(Clone, Debug, PartialEq, Eq, Hash)]
pub struct RouterLabels {
    pub router: String,
}

/// Labels of the system info series.
#[derive(Clone, Debug, PartialEq, Eq, Hash)]
pub struct SystemInfoLabels {
    pub router: String,
    pub version: String,
    pub board: String,
}

/// The six cumulative counters of an interface.
#[derive(Clone, Copy, Debug)]
pub struct InterfaceCounters {
    pub rx_bytes: u64,
    pub tx_bytes: u64,
    pub rx_packets: u64,
    pub tx_packets: u64,
    pub rx_errors: u64,
    pub tx_errors: u64,
}

/// Series of one interface: the counters exported, the device totals of the previous
/// scrape, and the running flag.
#[derive(Clone, Copy, Debug)]
pub struct InterfaceState {
    pub totals: InterfaceCounters,
    pub snapshot: InterfaceCounters,
    pub running: bool,
}

/// Per-device gauges read from system resources.
#[derive(Clone, Copy, Debug)]
pub struct SystemGauges {
    pub cpu_load: i64,
    pub free_memory: i64,
    pub total_memory: i64,
    pub uptime_seconds: i64,
}

/// Per-device scrape bookkeeping.
#[derive(Clone, Copy, Debug)]
pub struct ScrapeState {
    pub success: u64,
    pub errors: u64,
    pub duration_ms: Option<i64>,
    pub last_success_timestamp: Option<i64>,
    pub connection_errors: Option<i64>,
    /// Scrape errors since the last successful scrape.
    pub failure_streak: u64,
}

/// A gauge of a dynamic label tuple and when the tuple was last observed.
#[derive(Clone, Copy, Debug)]
pub struct Stamped {
    pub value: i64,
    pub last_seen: u64,
}

/// Gauges of a WireGuard peer and when it was last observed.
#[derive(Clone, Copy, Debug)]
pub struct PeerGauges {
    pub rx_bytes: i64,
    pub tx_bytes: i64,
    pub latest_handshake: i64,
    pub last_seen: u64,
}

/// A device value as a gauge, which holds signed 64-bit values: larger ones are capped.
pub open spec fn gauge_of(v: u64) -> i64 {
    if v > i64::MAX as u64 {
        i64::MAX
    } else {
        v as i64
    }
}

pub fn to_gauge(v: u64) -> (r: i64)
    ensures
        r == gauge_of(v),
{
    if v > i64::MAX as u64 {
        i64::MAX
    } else {
        v as i64
    }
}

/// The increase from `prev` to `cur`, zero where the device counter went back.
pub open spec fn delta(cur: u64, prev: u64) -> u64 {
    if cur >= prev {
        (cur - prev) as u64
    } else {
        0
    }
}

pub open spec fn zero_counters() -> InterfaceCounters {
    InterfaceCounters {
        rx_bytes: 0,
        tx_bytes: 0,
        rx_packets: 0,
        tx_packets: 0,
        rx_errors: 0,
        tx_errors: 0,
    }
}

pub open spec fn counters_of(i: InterfaceStats) -> InterfaceCounters {
    InterfaceCounters {
        rx_bytes: i.rx_bytes,
        tx_bytes: i.tx_bytes,
        rx_packets: i.rx_packets,
        tx_packets: i.tx_packets,
        rx_errors: i.rx_errors,
        tx_errors: i.tx_errors,
    }
}

/// Counters after adding the increase from `prev` to `cur` to `t`, field by field.
pub open spec fn advanced(t: InterfaceCounters, prev: InterfaceCounters, cur: InterfaceCounters) -> InterfaceCounters {
    InterfaceCounters {
        rx_bytes: sat_add(t.rx_bytes, delta(cur.rx_bytes, prev.rx_bytes)),
        tx_bytes: sat_add(t.tx_bytes, delta(cur.tx_bytes, prev.tx_bytes)),
        rx_packets: sat_add(t.rx_packets, delta(cur.rx_packets, prev.rx_packets)),
        tx_packets: sat_add(t.tx_packets, delta(cur.tx_packets, prev.tx_packets)),
        rx_errors: sat_add(t.rx_errors, delta(cur.rx_errors, prev.rx_errors)),
        tx_errors: sat_add(t.tx_errors, delta(cur.tx_errors, prev.tx_errors)),
    }
}

/// An interface's series after one observation. Without an earlier snapshot the
/// observation is its own prior, so the first scrape adds nothing.
pub open spec fn applied(before: Option<InterfaceState>, i: InterfaceStats) -> InterfaceState {
    let cur = counters_of(i);
    match before {
        Some(s) => InterfaceState {
            totals: advanced(s.totals, s.snapshot, cur),
            snapshot: cur,
            running: i.running,
        },
        None => InterfaceState { totals: advanced(zero_counters(), cur, cur), snapshot: cur, running: i.running },
    }
}

pub open spec fn iface_key(r: Seq<char>, i: InterfaceStats) -> Seq<Seq<char>> {
    seq![r, i.name@]
}

/// Interface series after the observations `s` of router `r`, in order.
pub open spec fn apply_interfaces(
    m: Map<Seq<Seq<char>>, InterfaceState>,
    r: Seq<char>,
    s: Seq<InterfaceStats>,
) -> Map<Seq<Seq<char>>, InterfaceState>
    decreases s.len(),
{
    if s.len() == 0 {
        m
    } else {
        let p = apply_interfaces(m, r, s.drop_last());
        let k = iface_key(r, s.last());
        p.insert(k, applied(if p.contains_key(k) { Some(p[k]) } else { None }, s.last()))
    }
}

/// Info series with every series of router `r` set to 0.
pub open spec fn zero_router(m: Map<Seq<Seq<char>>, i64>, r: Seq<char>) -> Map<Seq<Seq<char>>, i64> {
    Map::new(
        |k: Seq<Seq<char>>| m.contains_key(k),
        |k: Seq<Seq<char>>|
            if k.len() > 0 && k[0] == r {
                0
            } else {
                m[k]
            },
    )
}

/// Dynamic series of router `r` that are not in `observed` read 0; the time they were
/// last seen stays.
pub open spec fn reset_stamped(
    m: Map<Seq<Seq<char>>, Stamped>,
    r: Seq<char>,
    observed: Set<Seq<Seq<char>>>,
) -> Map<Seq<Seq<char>>, Stamped> {
    Map::new(
        |k: Seq<Seq<char>>| m.contains_key(k),
        |k: Seq<Seq<char>>|
            if k.len() > 0 && k[0] == r && !observed.contains(k) {
                Stamped { value: 0, last_seen: m[k].last_seen }
            } else {
                m[k]
            },
    )
}

/// Peer series of router `r` that are not in `observed` read 0.
pub open spec fn reset_peers(
    m: Map<Seq<Seq<char>>, PeerGauges>,
    r: Seq<char>,
    observed: Set<Seq<Seq<char>>>,
) -> Map<Seq<Seq<char>>, PeerGauges> {
    Map::new(
        |k: Seq<Seq<char>>| m.contains_key(k),
        |k: Seq<Seq<char>>|
            if k.len() > 0 && k[0] == r && !observed.contains(k) {
                PeerGauges { rx_bytes: 0, tx_bytes: 0, latest_handshake: 0, last_seen: m[k].last_seen }
            } else {
                m[k]
            },
    )
}

pub open spec fn conntrack_key(r: Seq<char>, c: ConnectionTrackingStats) -> Seq<Seq<char>> {
    seq![r, c.src_address@, c.protocol@, c.ip_version@]
}

/// Connection-tracking series after the observations `s` of router `r` at `now`.
pub open spec fn observe_conntrack(
    m: Map<Seq<Seq<char>>, Stamped>,
    r: Seq<char>,
    s: Seq<ConnectionTrackingStats>,
    now: u64,
) -> Map<Seq<Seq<char>>, Stamped>
    decreases s.len(),
{
    if s.len() == 0 {
        m
    } else {
        observe_conntrack(m, r, s.drop_last(), now).insert(
            conntrack_key(r, s.last()),
            Stamped { value: gauge_of(s.last().connection_count), last_seen: now },
        )
    }
}

pub open spec fn conntrack_keys(r: Seq<char>, s: Seq<ConnectionTrackingStats>) -> Set<Seq<Seq<char>>> {
    Set::new(|k: Seq<Seq<char>>| exists|i: int| 0 <= i < s.len() && conntrack_key(r, s[i]) == k)
}

/// Sum of a peer's byte counters.
pub open spec fn peer_bytes(p: WireGuardPeerStats) -> u64 {
    sat_add(p.rx_bytes, p.tx_bytes)
}

/// Whether record `c` is preferred over record `e` of the same peer: a more recent
/// handshake wins, a handshake beats none, and otherwise more bytes win.
pub open spec fn better_peer(c: WireGuardPeerStats, e: WireGuardPeerStats) -> bool {
    match (c.latest_handshake, e.latest_handshake) {
        (Some(a), Some(b)) => if a != b {
            a > b
        } else {
            peer_bytes(c) > peer_bytes(e)
        },
        (Some(_), None) => true,
        (None, Some(_)) => false,
        (None, None) => peer_bytes(c) > peer_bytes(e),
    }
}

pub open spec fn same_peer(a: WireGuardPeerStats, b: WireGuardPeerStats) -> bool {
    a.interface@ == b.interface@ && a.allowed_address@ == b.allowed_address@
}

/// Index of the record of the same peer as `c` among `d`.
pub open spec fn peer_index(d: Seq<WireGuardPeerStats>, c: WireGuardPeerStats) -> Option<int>
    decreases d.len(),
{
    if d.len() == 0 {
        None
    } else if same_peer(d.last(), c) {
        Some(d.len() - 1)
    } else {
        peer_index(d.drop_last(), c)
    }
}

/// One record per peer, in order of first appearance: each later record of a peer
/// replaces the kept one when it is preferred.
pub open spec fn dedup_peers(s: Seq<WireGuardPeerStats>) -> Seq<WireGuardPeerStats>
    decreases s.len(),
{
    if s.len() == 0 {
        s
    } else {
        let d = dedup_peers(s.drop_last());
        match peer_index(d, s.last()) {
            Some(j) => if better_peer(s.last(), d[j]) {
                d.update(j, s.last())
            } else {
                d
            },
            None => d.push(s.last()),
        }
    }
}

pub open spec fn peer_key(r: Seq<char>, p: WireGuardPeerStats) -> Seq<Seq<char>> {
    seq![r, p.interface@, p.allowed_address@]
}

pub open spec fn endpoint_label(p: WireGuardPeerStats) -> Seq<char> {
    match opt_view(p.endpoint) {
        Some(e) => e,
        None => "unknown"@,
    }
}

pub open spec fn peer_info_key(r: Seq<char>, p: WireGuardPeerStats) -> Seq<Seq<char>> {
    seq![r, p.interface@, p.allowed_address@, p.name@, endpoint_label(p)]
}

pub open spec fn peer_gauges(p: WireGuardPeerStats, now: u64) -> PeerGauges {
    PeerGauges {
        rx_bytes: gauge_of(p.rx_bytes),
        tx_bytes: gauge_of(p.tx_bytes),
        latest_handshake: match p.latest_handshake {
            Some(t) => gauge_of(t),
            None => 0,
        },
        last_seen: now,
    }
}

/// Peer series after the peers `d` of router `r` were seen at `now`.
pub open spec fn observe_peers(
    m: Map<Seq<Seq<char>>, PeerGauges>,
    r: Seq<char>,
    d: Seq<WireGuardPeerStats>,
    now: u64,
) -> Map<Seq<Seq<char>>, PeerGauges>
    decreases d.len(),
{
    if d.len() == 0 {
        m
    } else {
        observe_peers(m, r, d.drop_last(), now).insert(peer_key(r, d.last()), peer_gauges(d.last(), now))
    }
}

/// Peer info series after the peers `d` of router `r` were seen at `now`.
pub open spec fn observe_peer_info(
    m: Map<Seq<Seq<char>>, Stamped>,
    r: Seq<char>,
    d: Seq<WireGuardPeerStats>,
    now: u64,
) -> Map<Seq<Seq<char>>, Stamped>
    decreases d.len(),
{
    if d.len() == 0 {
        m
    } else {
        observe_peer_info(m, r, d.drop_last(), now).insert(
            peer_info_key(r, d.last()),
            Stamped { value: 1, last_seen: now },
        )
    }
}

pub open spec fn peer_keys(r: Seq<char>, d: Seq<WireGuardPeerStats>) -> Set<Seq<Seq<char>>> {
    Set::new(|k: Seq<Seq<char>>| exists|i: int| 0 <= i < d.len() && peer_key(r, d[i]) == k)
}

pub open spec fn peer_info_keys(r: Seq<char>, d: Seq<WireGuardPeerStats>) -> Set<Seq<Seq<char>>> {
    Set::new(|k: Seq<Seq<char>>| exists|i: int| 0 <= i < d.len() && peer_info_key(r, d[i]) == k)
}

/// The label tuples among `list`.
pub open spec fn listed(list: Seq<Vec<String>>) -> Set<Seq<Seq<char>>> {
    Set::new(|k: Seq<Seq<char>>| exists|i: int| 0 <= i < list.len() && labels_view(list[i]) == k)
}

/// Whether `key` is among `list`.
fn is_listed(list: &Vec<Vec<String>>, key: &Vec<String>) -> (r: bool)
    ensures
        r == listed(list@).contains(labels_view(*key)),
{
    let mut i: usize = 0;
    while i < list.len()
        invariant
            i <= list@.len(),
            forall|j: int| 0 <= j < i ==> labels_view(#[trigger] list@[j]) != labels_view(*key),
        decreases list@.len() - i,
    {
        if labels_eq(&list[i], key) {
            return true;
        }
        i += 1;
    }
    false
}

/// Whether the first label of `key` is `router`.
fn of_router(key: &Vec<String>, router: &str) -> (r: bool)
    ensures
        r == (labels_view(*key).len() > 0 && labels_view(*key)[0] == router@),
{
    key.len() > 0 && crate::text::str_eq(key[0].as_str(), router)
}

/// Sets to 0 every series of `router` in `t` that is not among `observed`.
fn reset_unobserved(t: &mut Table<Stamped>, router: &str, observed: &Vec<Vec<String>>)
    requires
        old(t).wf(),
    ensures
        final(t).wf(),
        final(t).view() == reset_stamped(old(t).view(), router@, listed(observed@)),
{
    let mut i: usize = 0;
    while i < t.len()
        invariant
            t.wf(),
            i <= t.keys@.len(),
            t.keys@ == old(t).keys@,
            t.vals@.len() == old(t).vals@.len(),
            forall|j: int|
                0 <= j < t.vals@.len() ==> #[trigger] t.vals@[j] == if j < i && t.key_at(j).len() > 0
                    && t.key_at(j)[0] == router@ && !listed(observed@).contains(t.key_at(j)) {
                    Stamped { value: 0, last_seen: old(t).vals@[j].last_seen }
                } else {
                    old(t).vals@[j]
                },
        decreases t.keys@.len() - i,
    {
        if of_router(&t.keys[i], router) && !is_listed(observed, &t.keys[i]) {
            let seen = t.vals[i].last_seen;
            t.update_at(i, Stamped { value: 0, last_seen: seen });
        }
        i += 1;
    }
    proof {
        let o = *old(t);
        let n = *t;
        let z = reset_stamped(o.view(), router@, listed(observed@));
        assert forall|k: Seq<Seq<char>>| #[trigger] z.contains_key(k) implies n.view().contains_key(k)
            && n.view()[k] == z[k] by {
            o.lemma_same_keys(&n, k);
            let c = choose|c: int|
                0 <= c < o.keys@.len() && o.key_at(c) == k && o.view()[k] == o.vals@[c]
                    && n.view()[k] == n.vals@[c];
            assert(n.key_at(c) == k);
        }
        assert forall|k: Seq<Seq<char>>| #[trigger] n.view().contains_key(k) implies z.contains_key(k) by {
            n.lemma_same_keys(&o, k);
        }
        assert(n.view() =~= z);
    }
}

/// Sets to 0 the gauges of every peer of `router` in `t` that is not among `observed`.
fn reset_unobserved_peers(t: &mut Table<PeerGauges>, router: &str, observed: &Vec<Vec<String>>)
    requires
        old(t).wf(),
    ensures
        final(t).wf(),
        final(t).view() == reset_peers(old(t).view(), router@, listed(observed@)),
{
    let mut i: usize = 0;
    while i < t.len()
        invariant
            t.wf(),
            i <= t.keys@.len(),
            t.keys@ == old(t).keys@,
            t.vals@.len() == old(t).vals@.len(),
            forall|j: int|
                0 <= j < t.vals@.len() ==> #[trigger] t.vals@[j] == if j < i && t.key_at(j).len() > 0
                    && t.key_at(j)[0] == router@ && !listed(observed@).contains(t.key_at(j)) {
                    PeerGauges {
                        rx_bytes: 0,
                        tx_bytes: 0,
                        latest_handshake: 0,
                        last_seen: old(t).vals@[j].last_seen,
                    }
                } else {
                    old(t).vals@[j]
                },
        decreases t.keys@.len() - i,
    {
        if of_router(&t.keys[i], router) && !is_listed(observed, &t.keys[i]) {
            let seen = t.vals[i].last_seen;
            t.update_at(i, PeerGauges { rx_bytes: 0, tx_bytes: 0, latest_handshake: 0, last_seen: seen });
        }
        i += 1;
    }
    proof {
        let o = *old(t);
        let n = *t;
        let z = reset_peers(o.view(), router@, listed(observed@));
        assert forall|k: Seq<Seq<char>>| #[trigger] z.contains_key(k) implies n.view().contains_key(k)
            && n.view()[k] == z[k] by {
            o.lemma_same_keys(&n, k);
            let c = choose|c: int|
                0 <= c < o.keys@.len() && o.key_at(c) == k && o.view()[k] == o.vals@[c]
                    && n.view()[k] == n.vals@[c];
            assert(n.key_at(c) == k);
        }
        assert forall|k: Seq<Seq<char>>| #[trigger] n.view().contains_key(k) implies z.contains_key(k) by {
            n.lemma_same_keys(&o, k);
        }
        assert(n.view() =~= z);
    }
}

fn key4(a: &str, b: &str, c: &str, d: &str) -> (r: Vec<String>)
    ensures
        labels_view(r) == seq![a@, b@, c@, d@],
{
    let mut k: Vec<String> = Vec::new();
    k.push(owned(a));
    k.push(owned(b));
    k.push(owned(c));
    k.push(owned(d));
    assert(labels_view(k) =~= seq![a@, b@, c@, d@]);
    k
}

fn key5(a: &str, b: &str, c: &str, d: &str, e: &str) -> (r: Vec<String>)
    ensures
        labels_view(r) == seq![a@, b@, c@, d@, e@],
{
    let mut k: Vec<String> = Vec::new();
    k.push(owned(a));
    k.push(owned(b));
    k.push(owned(c));
    k.push(owned(d));
    k.push(owned(e));
    assert(labels_view(k) =~= seq![a@, b@, c@, d@, e@]);
    k
}

/// An exact copy of a peer record.
fn copy_peer(p: &WireGuardPeerStats) -> (r: WireGuardPeerStats)
    ensures
        r == *p,
{
    let endpoint = match &p.endpoint {
        Some(e) => Some(e.clone()),
        None => None,
    };
    WireGuardPeerStats {
        interface: p.interface.clone(),
        name: p.name.clone(),
        allowed_address: p.allowed_address.clone(),
        endpoint,
        rx_bytes: p.rx_bytes,
        tx_bytes: p.tx_bytes,
        latest_handshake: p.latest_handshake,
    }
}

/// Whether record `c` is preferred over record `e` of the same peer.
pub fn should_replace(e: &WireGuardPeerStats, c: &WireGuardPeerStats) -> (r: bool)
    ensures
        r == better_peer(*c, *e),
{
    let cb = c.rx_bytes.saturating_add(c.tx_bytes);
    let eb = e.rx_bytes.saturating_add(e.tx_bytes);
    match (c.latest_handshake, e.latest_handshake) {
        (Some(a), Some(b)) => if a != b {
            a > b
        } else {
            cb > eb
        },
        (Some(_), None) => true,
        (None, Some(_)) => false,
        (None, None) => cb > eb,
    }
}

fn find_peer(out: &Vec<WireGuardPeerStats>, p: &WireGuardPeerStats) -> (r: Option<usize>)
    ensures
        r matches Some(j) ==> peer_index(out@, *p) == Some(j as int) && j < out@.len(),
        r is None ==> peer_index(out@, *p) is None,
{
    let mut j: usize = out.len();
    assert(out@.subrange(0, j as int) =~= out@);
    while j > 0
        invariant
            j <= out@.len(),
            peer_index(out@, *p) == peer_index(out@.subrange(0, j as int), *p),
        decreases j,
    {
        let ghost pre = out@.subrange(0, j as int);
        assert(pre.drop_last() =~= out@.subrange(0, j - 1));
        assert(pre.last() == out@[j - 1]);
        if out[j - 1].interface == p.interface && out[j - 1].allowed_address == p.allowed_address {
            return Some(j - 1);
        }
        j -= 1;
    }
    None
}

/// Keeps one record per peer `(interface, allowed address)`, in order of first
/// appearance; of several records of a peer the preferred one stays (see
/// `better_peer`), the earliest among equals.
pub fn deduplicate_peers(peers: &[WireGuardPeerStats]) -> (r: Vec<WireGuardPeerStats>)
    ensures
        r@ == dedup_peers(peers@),
{
    let mut out: Vec<WireGuardPeerStats> = Vec::new();
    let mut i: usize = 0;
    while i < peers.len()
        invariant
            i <= peers@.len(),
            out@ == dedup_peers(peers@.subrange(0, i as int)),
        decreases peers@.len() - i,
    {
        let p = &peers[i];
        proof {
            let nxt = peers@.subrange(0, i + 1);
            assert(nxt.drop_last() =~= peers@.subrange(0, i as int));
            assert(nxt.last() == *p);
        }
        let found = find_peer(&out, p);
        match found {
            Some(k) => {
                if should_replace(&out[k], p) {
                    out.set(k, copy_peer(p));
                }
            },
            None => {
                out.push(copy_peer(p));
            },
        }
        i += 1;
    }
    assert(peers@.subrange(0, peers@.len() as int) =~= peers@);
    out
}

fn key1(a: &str) -> (r: Vec<String>)
    ensures
        labels_view(r) == seq![a@],
{
    let mut k: Vec<String> = Vec::new();
    k.push(owned(a));
    assert(labels_view(k) =~= seq![a@]);
    k
}

fn key2(a: &str, b: &str) -> (r: Vec<String>)
    ensures
        labels_view(r) == seq![a@, b@],
{
    let mut k: Vec<String> = Vec::new();
    k.push(owned(a));
    k.push(owned(b));
    assert(labels_view(k) =~= seq![a@, b@]);
    k
}

fn key3(a: &str, b: &str, c: &str) -> (r: Vec<String>)
    ensures
        labels_view(r) == seq![a@, b@, c@],
{
    let mut k: Vec<String> = Vec::new();
    k.push(owned(a));
    k.push(owned(b));
    k.push(owned(c));
    assert(labels_view(k) =~= seq![a@, b@, c@]);
    k
}

fn counters_from(i: &InterfaceStats) -> (r: InterfaceCounters)
    ensures
        r == counters_of(*i),
{
    InterfaceCounters {
        rx_bytes: i.rx_bytes,
        tx_bytes: i.tx_bytes,
        rx_packets: i.rx_packets,
        tx_packets: i.tx_packets,
        rx_errors: i.rx_errors,
        tx_errors: i.tx_errors,
    }
}

fn diff(cur: u64, prev: u64) -> (r: u64)
    ensures
        r == delta(cur, prev),
{
    cur.saturating_sub(prev)
}

fn advance(t: InterfaceCounters, prev: InterfaceCounters, cur: InterfaceCounters) -> (r: InterfaceCounters)
    ensures
        r == advanced(t, prev, cur),
{
    InterfaceCounters {
        rx_bytes: t.rx_bytes.saturating_add(diff(cur.rx_bytes, prev.rx_bytes)),
        tx_bytes: t.tx_bytes.saturating_add(diff(cur.tx_bytes, prev.tx_bytes)),
        rx_packets: t.rx_packets.saturating_add(diff(cur.rx_packets, prev.rx_packets)),
        tx_packets: t.tx_packets.saturating_add(diff(cur.tx_packets, prev.tx_packets)),
        rx_errors: t.rx_errors.saturating_add(diff(cur.rx_errors, prev.rx_errors)),
        tx_errors: t.tx_errors.saturating_add(diff(cur.tx_errors, prev.tx_errors)),
    }
}

/// Every family of the exporter.
pub struct MetricsRegistry {
    /// Keyed by `[router, interface]`.
    pub interfaces: Table<InterfaceState>,
    /// Keyed by `[router]`.
    pub system: Table<SystemGauges>,
    /// Keyed by `[router]`.
    pub scrape: Table<ScrapeState>,
    /// Keyed by `[router, version, board]`.
    pub system_info: Table<i64>,
    /// Keyed by `[router, src_address, protocol, ip_version]`.
    pub conntrack: Table<Stamped>,
    /// Keyed by `[router, interface, allowed_address]`.
    pub peers: Table<PeerGauges>,
    /// Keyed by `[router, interface, allowed_address, name, endpoint]`.
    pub peer_info: Table<Stamped>,
    pub collection_cycle_duration_ms: i64,
    pub pool_size: i64,
    pub pool_active: i64,
}

impl MetricsRegistry {
    /// No family holds a series.
    pub open spec fn is_empty(&self) -> bool {
        &&& self.interfaces.keys@.len() == 0
        &&& self.system.keys@.len() == 0
        &&& self.scrape.keys@.len() == 0
        &&& self.system_info.keys@.len() == 0
        &&& self.conntrack.keys@.len() == 0
        &&& self.peers.keys@.len() == 0
        &&& self.peer_info.keys@.len() == 0
    }

    pub open spec fn wf(&self) -> bool {
        &&& self.interfaces.wf()
        &&& self.system.wf()
        &&& self.scrape.wf()
        &&& self.system_info.wf()
        &&& self.conntrack.wf()
        &&& self.peers.wf()
        &&& self.peer_info.wf()
    }

    pub fn new() -> (r: MetricsRegistry)
        ensures
            r.wf(),
            r.interfaces.view() == Map::<Seq<Seq<char>>, InterfaceState>::empty(),
            r.system.view() == Map::<Seq<Seq<char>>, SystemGauges>::empty(),
            r.scrape.view() == Map::<Seq<Seq<char>>, ScrapeState>::empty(),
            r.system_info.view() == Map::<Seq<Seq<char>>, i64>::empty(),
            r.conntrack.view() == Map::<Seq<Seq<char>>, Stamped>::empty(),
            r.peers.view() == Map::<Seq<Seq<char>>, PeerGauges>::empty(),
            r.peer_info.view() == Map::<Seq<Seq<char>>, Stamped>::empty(),
            r.is_empty(),
            r.collection_cycle_duration_ms == 0,
            r.pool_size == 0,
            r.pool_active == 0,
    {
        MetricsRegistry {
            interfaces: Table::new(),
            system: Table::new(),
            scrape: Table::new(),
            system_info: Table::new(),
            conntrack: Table::new(),
            peers: Table::new(),
            peer_info: Table::new(),
            collection_cycle_duration_ms: 0,
            pool_size: 0,
            pool_active: 0,
        }
    }

    /// Applies the interface observations of one scrape of `router`, in order: each
    /// counter grows by the increase over the previous snapshot (zero on a first
    /// sighting or after a device-side reset), the snapshot becomes the observation,
    /// and the running flag is set.
    pub fn update_interfaces(&mut self, router: &str, ifaces: &[InterfaceStats])
        requires
            old(self).wf(),
        ensures
            final(self).wf(),
            final(self).interfaces.view() == apply_interfaces(
                old(self).interfaces.view(),
                router@,
                ifaces@,
            ),
            final(self).system == old(self).system,
            final(self).scrape == old(self).scrape,
            final(self).collection_cycle_duration_ms == old(self).collection_cycle_duration_ms,
            final(self).pool_size == old(self).pool_size,
            final(self).pool_active == old(self).pool_active,
            final(self).system_info == old(self).system_info,
            final(self).conntrack == old(self).conntrack,
            final(self).peers == old(self).peers,
            final(self).peer_info == old(self).peer_info,
    {
        let mut i: usize = 0;
        while i < ifaces.len()
            invariant
                self.wf(),
                i <= ifaces@.len(),
                self.interfaces.view() == apply_interfaces(
                    old(self).interfaces.view(),
                    router@,
                    ifaces@.subrange(0, i as int),
                ),
                self.system == old(self).system,
                self.scrape == old(self).scrape,
                self.collection_cycle_duration_ms == old(self).collection_cycle_duration_ms,
                self.pool_size == old(self).pool_size,
                self.pool_active == old(self).pool_active,
                self.system_info == old(self).system_info,
                self.conntrack == old(self).conntrack,
                self.peers == old(self).peers,
                self.peer_info == old(self).peer_info,
            decreases ifaces@.len() - i,
        {
            let iface = &ifaces[i];
            let key = key2(router, iface.name.as_str());
            let cur = counters_from(iface);
            let next = match self.interfaces.get(&key) {
                Some(s) => InterfaceState {
                    totals: advance(s.totals, s.snapshot, cur),
                    snapshot: cur,
                    running: iface.running,
                },
                None => {
                    let zero = InterfaceCounters {
                        rx_bytes: 0,
                        tx_bytes: 0,
                        rx_packets: 0,
                        tx_packets: 0,
                        rx_errors: 0,
                        tx_errors: 0,
                    };
                    InterfaceState { totals: advance(zero, cur, cur), snapshot: cur, running: iface.running }
                },
            };
            proof {
                let pre = ifaces@.subrange(0, i as int);
                let nxt = ifaces@.subrange(0, i + 1);
                assert(nxt.drop_last() =~= pre);
                assert(nxt.last() == *iface);
            }
            self.interfaces.set(key, next);
            i += 1;
        }
        assert(ifaces@.subrange(0, ifaces@.len() as int) =~= ifaces@);
    }

    /// Sets every info series of `router` to 0, then the series `[router, version,
    /// board]` to 1: one info series per router reads 1.
    pub fn update_system_info(&mut self, router: &str, version: &str, board: &str)
        requires
            old(self).wf(),
        ensures
            final(self).wf(),
            final(self).system_info.view() == zero_router(
                old(self).system_info.view(),
                router@,
            ).insert(seq![router@, version@, board@], 1),
            final(self).interfaces == old(self).interfaces,
            final(self).system == old(self).system,
            final(self).scrape == old(self).scrape,
            final(self).collection_cycle_duration_ms == old(self).collection_cycle_duration_ms,
            final(self).pool_size == old(self).pool_size,
            final(self).pool_active == old(self).pool_active,
            final(self).conntrack == old(self).conntrack,
            final(self).peers == old(self).peers,
            final(self).peer_info == old(self).peer_info,
    {
        let mut i: usize = 0;
        while i < self.system_info.len()
            invariant
                self.wf(),
                i <= self.system_info.keys@.len(),
                self.system_info.keys@ == old(self).system_info.keys@,
                self.system_info.vals@.len() == old(self).system_info.vals@.len(),
                forall|j: int|
                    0 <= j < self.system_info.vals@.len() ==> #[trigger] self.system_info.vals@[j] == if j < i
                        && self.system_info.key_at(j).len() > 0 && self.system_info.key_at(j)[0]
                        == router@ {
                        0
                    } else {
                        old(self).system_info.vals@[j]
                    },
                self.interfaces == old(self).interfaces,
                self.system == old(self).system,
                self.scrape == old(self).scrape,
                self.collection_cycle_duration_ms == old(self).collection_cycle_duration_ms,
                self.pool_size == old(self).pool_size,
                self.pool_active == old(self).pool_active,
                self.conntrack == old(self).conntrack,
                self.peers == old(self).peers,
                self.peer_info == old(self).peer_info,
            decreases self.system_info.keys@.len() - i,
        {
            let of_router = self.system_info.keys[i].len() > 0 && crate::text::str_eq(
                self.system_info.keys[i][0].as_str(),
                router,
            );
            if of_router {
                self.system_info.update_at(i, 0);
            }
            i += 1;
        }
        proof {
            let o = old(self).system_info;
            let t = self.system_info;
            let z = zero_router(o.view(), router@);
            assert forall|k: Seq<Seq<char>>| #[trigger] z.contains_key(k) implies t.view().contains_key(k)
                && t.view()[k] == z[k] by {
                o.lemma_same_keys(&t, k);
                let c = choose|c: int|
                    0 <= c < o.keys@.len() && o.key_at(c) == k && o.view()[k] == o.vals@[c]
                        && t.view()[k] == t.vals@[c];
                assert(t.key_at(c) == k);
                assert(t.vals@[c] == if k.len() > 0 && k[0] == router@ {
                    0
                } else {
                    o.vals@[c]
                });
            }
            assert forall|k: Seq<Seq<char>>| #[trigger] t.view().contains_key(k) implies z.contains_key(k) by {
                t.lemma_same_keys(&o, k);
            }
            assert(t.view() =~= z);
        }
        let key = key3(router, version, board);
        self.system_info.set(key, 1);
    }

    /// Sets the system gauges of `router`: CPU load, free and total memory, and the
    /// uptime in seconds.
    pub fn update_system(&mut self, router: &str, cpu_load: u64, free_memory: u64, total_memory: u64, uptime: &str)
        requires
            old(self).wf(),
        ensures
            final(self).wf(),
            final(self).system.view() == old(self).system.view().insert(
                seq![router@],
                SystemGauges {
                    cpu_load: gauge_of(cpu_load),
                    free_memory: gauge_of(free_memory),
                    total_memory: gauge_of(total_memory),
                    uptime_seconds: gauge_of(uptime_seconds(uptime@)),
                },
            ),
            final(self).interfaces == old(self).interfaces,
            final(self).scrape == old(self).scrape,
            final(self).collection_cycle_duration_ms == old(self).collection_cycle_duration_ms,
            final(self).pool_size == old(self).pool_size,
            final(self).pool_active == old(self).pool_active,
            final(self).system_info == old(self).system_info,
            final(self).conntrack == old(self).conntrack,
            final(self).peers == old(self).peers,
            final(self).peer_info == old(self).peer_info,
    {
        let g = SystemGauges {
            cpu_load: to_gauge(cpu_load),
            free_memory: to_gauge(free_memory),
            total_memory: to_gauge(total_memory),
            uptime_seconds: to_gauge(parse_uptime_to_seconds(uptime)),
        };
        self.system.set(key1(router), g);
    }
}

impl MetricsRegistry {
    /// Sets the connection-tracking gauges of `router` from one scrape at `now`; every
    /// series of the router that the scrape did not report reads 0 (and keeps the time
    /// it was last seen).
    pub fn update_conntrack(&mut self, router: &str, stats: &[ConnectionTrackingStats], now: u64)
        requires
            old(self).wf(),
        ensures
            final(self).wf(),
            final(self).conntrack.view() == reset_stamped(
                observe_conntrack(old(self).conntrack.view(), router@, stats@, now),
                router@,
                conntrack_keys(router@, stats@),
            ),
            final(self).interfaces == old(self).interfaces,
            final(self).system == old(self).system,
            final(self).scrape == old(self).scrape,
            final(self).collection_cycle_duration_ms == old(self).collection_cycle_duration_ms,
            final(self).pool_size == old(self).pool_size,
            final(self).pool_active == old(self).pool_active,
            final(self).system_info == old(self).system_info,
            final(self).peers == old(self).peers,
            final(self).peer_info == old(self).peer_info,
    {
        let mut observed: Vec<Vec<String>> = Vec::new();
        let mut i: usize = 0;
        while i < stats.len()
            invariant
                self.wf(),
                i <= stats@.len(),
                observed@.len() == i,
                forall|j: int| 0 <= j < i ==> labels_view(#[trigger] observed@[j]) == conntrack_key(router@, stats@[j]),
                self.conntrack.view() == observe_conntrack(
                    old(self).conntrack.view(),
                    router@,
                    stats@.subrange(0, i as int),
                    now,
                ),
                self.interfaces == old(self).interfaces,
                self.system == old(self).system,
                self.scrape == old(self).scrape,
                self.collection_cycle_duration_ms == old(self).collection_cycle_duration_ms,
                self.pool_size == old(self).pool_size,
                self.pool_active == old(self).pool_active,
                self.system_info == old(self).system_info,
                self.peers == old(self).peers,
                self.peer_info == old(self).peer_info,
            decreases stats@.len() - i,
        {
            let ct = &stats[i];
            proof {
                let nxt = stats@.subrange(0, i + 1);
                assert(nxt.drop_last() =~= stats@.subrange(0, i as int));
                assert(nxt.last() == *ct);
            }
            let key = key4(router, ct.src_address.as_str(), ct.protocol.as_str(), ct.ip_version.as_str());
            observed.push(clone_labels(&key));
            self.conntrack.set(key, Stamped { value: to_gauge(ct.connection_count), last_seen: now });
            i += 1;
        }
        assert(stats@.subrange(0, stats@.len() as int) =~= stats@);
        proof {
            assert(listed(observed@) =~= conntrack_keys(router@, stats@)) by {
                assert forall|k: Seq<Seq<char>>| #[trigger] conntrack_keys(router@, stats@).contains(k) implies listed(observed@).contains(k) by {
                    let j = choose|j: int| 0 <= j < stats@.len() && conntrack_key(router@, stats@[j]) == k;
                    assert(labels_view(observed@[j]) == k);
                }
                assert forall|k: Seq<Seq<char>>| #[trigger] listed(observed@).contains(k) implies conntrack_keys(router@, stats@).contains(k) by {
                    let j = choose|j: int| 0 <= j < observed@.len() && labels_view(observed@[j]) == k;
                    assert(conntrack_key(router@, stats@[j]) == k);
                }
            }
        }
        reset_unobserved(&mut self.conntrack, router, &observed);
    }

    /// Sets the WireGuard peer series of `router` from one scrape at `now`: the records
    /// are first reduced to one per peer; each peer's gauges and info series (value 1)
    /// are set, and every peer gauge and info series of the router that this scrape did
    /// not produce reads 0.
    pub fn update_peers(&mut self, router: &str, peers: &[WireGuardPeerStats], now: u64)
        requires
            old(self).wf(),
        ensures
            final(self).wf(),
            final(self).peers.view() == reset_peers(
                observe_peers(old(self).peers.view(), router@, dedup_peers(peers@), now),
                router@,
                peer_keys(router@, dedup_peers(peers@)),
            ),
            final(self).peer_info.view() == reset_stamped(
                observe_peer_info(old(self).peer_info.view(), router@, dedup_peers(peers@), now),
                router@,
                peer_info_keys(router@, dedup_peers(peers@)),
            ),
            final(self).interfaces == old(self).interfaces,
            final(self).system == old(self).system,
            final(self).scrape == old(self).scrape,
            final(self).collection_cycle_duration_ms == old(self).collection_cycle_duration_ms,
            final(self).pool_size == old(self).pool_size,
            final(self).pool_active == old(self).pool_active,
            final(self).system_info == old(self).system_info,
            final(self).conntrack == old(self).conntrack,
    {
        let d = deduplicate_peers(peers);
        let mut seen_peers: Vec<Vec<String>> = Vec::new();
        let mut seen_info: Vec<Vec<String>> = Vec::new();
        let mut i: usize = 0;
        while i < d.len()
            invariant
                self.wf(),
                i <= d@.len(),
                d@ == dedup_peers(peers@),
                seen_peers@.len() == i,
                seen_info@.len() == i,
                forall|j: int| 0 <= j < i ==> labels_view(#[trigger] seen_peers@[j]) == peer_key(router@, d@[j]),
                forall|j: int| 0 <= j < i ==> labels_view(#[trigger] seen_info@[j]) == peer_info_key(router@, d@[j]),
                self.peers.view() == observe_peers(old(self).peers.view(), router@, d@.subrange(0, i as int), now),
                self.peer_info.view() == observe_peer_info(old(self).peer_info.view(), router@, d@.subrange(0, i as int), now),
                self.interfaces == old(self).interfaces,
                self.system == old(self).system,
                self.scrape == old(self).scrape,
                self.collection_cycle_duration_ms == old(self).collection_cycle_duration_ms,
                self.pool_size == old(self).pool_size,
                self.pool_active == old(self).pool_active,
                self.system_info == old(self).system_info,
                self.conntrack == old(self).conntrack,
            decreases d@.len() - i,
        {
            let p = &d[i];
            proof {
                let nxt = d@.subrange(0, i + 1);
                assert(nxt.drop_last() =~= d@.subrange(0, i as int));
                assert(nxt.last() == *p);
            }
            let key = key3(router, p.interface.as_str(), p.allowed_address.as_str());
            let endpoint = match &p.endpoint {
                Some(e) => e.clone(),
                None => owned("unknown"),
            };
            let info = key5(
                router,
                p.interface.as_str(),
                p.allowed_address.as_str(),
                p.name.as_str(),
                endpoint.as_str(),
            );
            let handshake: i64 = match p.latest_handshake {
                Some(t) => to_gauge(t),
                None => 0,
            };
            seen_peers.push(clone_labels(&key));
            seen_info.push(clone_labels(&info));
            self.peers.set(
                key,
                PeerGauges {
                    rx_bytes: to_gauge(p.rx_bytes),
                    tx_bytes: to_gauge(p.tx_bytes),
                    latest_handshake: handshake,
                    last_seen: now,
                },
            );
            self.peer_info.set(info, Stamped { value: 1, last_seen: now });
            i += 1;
        }
        assert(d@.subrange(0, d@.len() as int) =~= d@);
        proof {
            assert(listed(seen_peers@) =~= peer_keys(router@, d@)) by {
                assert forall|k: Seq<Seq<char>>| #[trigger] peer_keys(router@, d@).contains(k) implies listed(seen_peers@).contains(k) by {
                    let j = choose|j: int| 0 <= j < d@.len() && peer_key(router@, d@[j]) == k;
                    assert(labels_view(seen_peers@[j]) == k);
                }
                assert forall|k: Seq<Seq<char>>| #[trigger] listed(seen_peers@).contains(k) implies peer_keys(router@, d@).contains(k) by {
                    let j = choose|j: int| 0 <= j < seen_peers@.len() && labels_view(seen_peers@[j]) == k;
                    assert(peer_key(router@, d@[j]) == k);
                }
            }
            assert(listed(seen_info@) =~= peer_info_keys(router@, d@)) by {
                assert forall|k: Seq<Seq<char>>| #[trigger] peer_info_keys(router@, d@).contains(k) implies listed(seen_info@).contains(k) by {
                    let j = choose|j: int| 0 <= j < d@.len() && peer_info_key(router@, d@[j]) == k;
                    assert(labels_view(seen_info@[j]) == k);
                }
                assert forall|k: Seq<Seq<char>>| #[trigger] listed(seen_info@).contains(k) implies peer_info_keys(router@, d@).contains(k) by {
                    let j = choose|j: int| 0 <= j < seen_info@.len() && labels_view(seen_info@[j]) == k;
                    assert(peer_info_key(router@, d@[j]) == k);
                }
            }
        }
        reset_unobserved_peers(&mut self.peers, router, &seen_peers);
        reset_unobserved(&mut self.peer_info, router, &seen_info);
    }

    /// Applies everything one scrape of a router read, at monotonic time `now`:
    /// interface counters by their deltas, system gauges, the info series, connection
    /// tracking and WireGuard peers.
    pub fn update_metrics(&mut self, metrics: &RouterMetrics, now: u64)
        requires
            old(self).wf(),
        ensures
            final(self).wf(),
            scrape_applied(*old(self), *final(self), *metrics, now),
            final(self).scrape == old(self).scrape,
            same_globals(*old(self), *final(self)),
    {
        let router = metrics.router_name.as_str();
        self.update_interfaces(router, metrics.interfaces.as_slice());
        self.update_system(
            router,
            metrics.system.cpu_load,
            metrics.system.free_memory,
            metrics.system.total_memory,
            metrics.system.uptime.as_str(),
        );
        self.update_system_info(
            router,
            metrics.system.version.as_str(),
            metrics.system.board_name.as_str(),
        );
        self.update_conntrack(router, metrics.connection_tracking.as_slice(), now);
        self.update_peers(router, metrics.wireguard_peers.as_slice(), now);
    }
}

/// Scrape bookkeeping of a router not seen yet.
pub open spec fn empty_scrape() -> ScrapeState {
    ScrapeState {
        success: 0,
        errors: 0,
        duration_ms: None,
        last_success_timestamp: None,
        connection_errors: None,
        failure_streak: 0,
    }
}

pub open spec fn scrape_or_empty(m: Map<Seq<Seq<char>>, ScrapeState>, r: Seq<char>) -> ScrapeState {
    if m.contains_key(seq![r]) {
        m[seq![r]]
    } else {
        empty_scrape()
    }
}

pub open spec fn inc(v: u64) -> u64 {
    if v == u64::MAX {
        u64::MAX
    } else {
        (v + 1) as u64
    }
}

/// Label tuples of the interfaces in `current`.
pub open spec fn interface_keys(current: Seq<InterfaceLabels>) -> Set<Seq<Seq<char>>> {
    Set::new(
        |k: Seq<Seq<char>>|
            exists|i: int| 0 <= i < current.len() && seq![current[i].router@, current[i].interface@] == k,
    )
}

/// Label tuples whose router is among `active`.
pub open spec fn router_keys(active: Seq<String>) -> Set<Seq<Seq<char>>> {
    Set::new(
        |k: Seq<Seq<char>>| k.len() > 0 && exists|i: int| 0 <= i < active.len() && active[i]@ == k[0],
    )
}

/// Dynamic series last seen no more than `ttl` before `now`.
pub open spec fn unexpired(m: Map<Seq<Seq<char>>, Stamped>, ttl: u64, now: u64) -> Set<Seq<Seq<char>>> {
    Set::new(|k: Seq<Seq<char>>| m.contains_key(k) && crate::pool::elapsed(m[k].last_seen, now) <= ttl)
}

pub open spec fn unexpired_peers(m: Map<Seq<Seq<char>>, PeerGauges>, ttl: u64, now: u64) -> Set<Seq<Seq<char>>> {
    Set::new(|k: Seq<Seq<char>>| m.contains_key(k) && crate::pool::elapsed(m[k].last_seen, now) <= ttl)
}

/// Keeps the series of `t` whose router is among `active`.
fn keep_routers<V: Copy>(t: &mut Table<V>, active: &[String])
    requires
        old(t).wf(),
    ensures
        final(t).wf(),
        final(t).view() == old(t).view().restrict(router_keys(active@)),
{
    let mut keep: Vec<bool> = Vec::new();
    let mut i: usize = 0;
    while i < t.len()
        invariant
            t.wf(),
            i <= t.keys@.len(),
            keep@.len() == i,
            forall|o: int| 0 <= o < i ==> #[trigger] keep@[o] == router_keys(active@).contains(t.key_at(o)),
        decreases t.keys@.len() - i,
    {
        let mut found = false;
        if t.keys[i].len() > 0 {
            let mut j: usize = 0;
            while j < active.len()
                invariant
                    i < t.keys@.len(),
                    t.keys@[i as int]@.len() > 0,
                    j <= active@.len(),
                    found == exists|a: int| 0 <= a < j && active@[a]@ == t.key_at(i as int)[0],
                decreases active@.len() - j,
            {
                if crate::text::str_eq(active[j].as_str(), t.keys[i][0].as_str()) {
                    found = true;
                }
                j += 1;
            }
        }
        keep.push(found);
        i += 1;
    }
    proof {
        t.lemma_marked_restrict(keep@, router_keys(active@));
    }
    t.retain_marked(&keep);
}

/// Keeps the series of `t` last seen no more than `ttl` before `now`.
fn keep_unexpired(t: &mut Table<Stamped>, ttl: u64, now: u64)
    requires
        old(t).wf(),
    ensures
        final(t).wf(),
        final(t).view() == old(t).view().restrict(unexpired(old(t).view(), ttl, now)),
{
    let mut keep: Vec<bool> = Vec::new();
    let mut i: usize = 0;
    while i < t.len()
        invariant
            t.wf(),
            i <= t.keys@.len(),
            keep@.len() == i,
            forall|o: int| 0 <= o < i ==> #[trigger] keep@[o] == unexpired(t.view(), ttl, now).contains(t.key_at(o)),
        decreases t.keys@.len() - i,
    {
        proof {
            t.lemma_view_at(i as int);
        }
        keep.push(now.saturating_sub(t.vals[i].last_seen) <= ttl);
        i += 1;
    }
    proof {
        t.lemma_marked_restrict(keep@, unexpired(t.view(), ttl, now));
    }
    t.retain_marked(&keep);
}

fn keep_unexpired_peers(t: &mut Table<PeerGauges>, ttl: u64, now: u64)
    requires
        old(t).wf(),
    ensures
        final(t).wf(),
        final(t).view() == old(t).view().restrict(unexpired_peers(old(t).view(), ttl, now)),
{
    let mut keep: Vec<bool> = Vec::new();
    let mut i: usize = 0;
    while i < t.len()
        invariant
            t.wf(),
            i <= t.keys@.len(),
            keep@.len() == i,
            forall|o: int| 0 <= o < i ==> #[trigger] keep@[o] == unexpired_peers(t.view(), ttl, now).contains(t.key_at(o)),
        decreases t.keys@.len() - i,
    {
        proof {
            t.lemma_view_at(i as int);
        }
        keep.push(now.saturating_sub(t.vals[i].last_seen) <= ttl);
        i += 1;
    }
    proof {
        t.lemma_marked_restrict(keep@, unexpired_peers(t.view(), ttl, now));
    }
    t.retain_marked(&keep);
}

impl MetricsRegistry {
    fn scrape_state(&self, router: &str) -> (r: ScrapeState)
        requires
            self.wf(),
        ensures
            r == scrape_or_empty(self.scrape.view(), router@),
    {
        match self.scrape.get(&key1(router)) {
            Some(s) => s,
            None => ScrapeState {
                success: 0,
                errors: 0,
                duration_ms: None,
                last_success_timestamp: None,
                connection_errors: None,
                failure_streak: 0,
            },
        }
    }

    /// Creates the scrape series of a router at zero, so that they show before its first
    /// scrape; a router already known is left as it is.
    pub fn initialize_router_metrics(&mut self, labels: &RouterLabels)
        requires
            old(self).wf(),
        ensures
            final(self).wf(),
            final(self).scrape.view() == if old(self).scrape.view().contains_key(seq![labels.router@]) {
                old(self).scrape.view()
            } else {
                old(self).scrape.view().insert(
                    seq![labels.router@],
                    ScrapeState { duration_ms: Some(0), connection_errors: Some(0), ..empty_scrape() },
                )
            },
            final(self).interfaces == old(self).interfaces,
            final(self).system_info == old(self).system_info,
            final(self).conntrack == old(self).conntrack,
    {
        let key = key1(labels.router.as_str());
        if self.scrape.find(&key).is_none() {
            self.scrape.set(
                key,
                ScrapeState {
                    success: 0,
                    errors: 0,
                    duration_ms: Some(0),
                    last_success_timestamp: None,
                    connection_errors: Some(0),
                    failure_streak: 0,
                },
            );
        }
    }

    /// Counts a successful scrape of a router at Unix time `unix_now`; its run of
    /// failed scrapes ends.
    pub fn record_scrape_success(&mut self, labels: &RouterLabels, unix_now: u64)
        requires
            old(self).wf(),
        ensures
            final(self).wf(),
            final(self).scrape.view() == old(self).scrape.view().insert(
                seq![labels.router@],
                ScrapeState {
                    success: inc(scrape_or_empty(old(self).scrape.view(), labels.router@).success),
                    last_success_timestamp: Some(gauge_of(unix_now)),
                    failure_streak: 0,
                    ..scrape_or_empty(old(self).scrape.view(), labels.router@)
                },
            ),
            only_scrape_changed(*old(self), *final(self)),
    {
        let mut st = self.scrape_state(labels.router.as_str());
        st.success = st.success.saturating_add(1);
        st.last_success_timestamp = Some(to_gauge(unix_now));
        st.failure_streak = 0;
        self.scrape.set(key1(labels.router.as_str()), st);
    }

    /// Counts a failed scrape of a router.
    pub fn record_scrape_error(&mut self, labels: &RouterLabels)
        requires
            old(self).wf(),
        ensures
            final(self).wf(),
            final(self).scrape.view() == old(self).scrape.view().insert(
                seq![labels.router@],
                ScrapeState {
                    errors: inc(scrape_or_empty(old(self).scrape.view(), labels.router@).errors),
                    failure_streak: inc(
                        scrape_or_empty(old(self).scrape.view(), labels.router@).failure_streak,
                    ),
                    ..scrape_or_empty(old(self).scrape.view(), labels.router@)
                },
            ),
            only_scrape_changed(*old(self), *final(self)),
    {
        let mut st = self.scrape_state(labels.router.as_str());
        st.errors = st.errors.saturating_add(1);
        st.failure_streak = st.failure_streak.saturating_add(1);
        self.scrape.set(key1(labels.router.as_str()), st);
    }

    /// Sets how long the latest scrape of a router took, in milliseconds.
    pub fn record_scrape_duration(&mut self, labels: &RouterLabels, millis: u64)
        requires
            old(self).wf(),
        ensures
            final(self).wf(),
            final(self).scrape.view() == old(self).scrape.view().insert(
                seq![labels.router@],
                ScrapeState {
                    duration_ms: Some(gauge_of(millis)),
                    ..scrape_or_empty(old(self).scrape.view(), labels.router@)
                },
            ),
            only_scrape_changed(*old(self), *final(self)),
    {
        let mut st = self.scrape_state(labels.router.as_str());
        st.duration_ms = Some(to_gauge(millis));
        self.scrape.set(key1(labels.router.as_str()), st);
    }

    /// Sets the pool's consecutive connection errors of a router.
    pub fn update_connection_errors(&mut self, labels: &RouterLabels, consecutive_errors: u32)
        requires
            old(self).wf(),
        ensures
            final(self).wf(),
            final(self).scrape.view() == old(self).scrape.view().insert(
                seq![labels.router@],
                ScrapeState {
                    connection_errors: Some(consecutive_errors as i64),
                    ..scrape_or_empty(old(self).scrape.view(), labels.router@)
                },
            ),
            only_scrape_changed(*old(self), *final(self)),
    {
        let mut st = self.scrape_state(labels.router.as_str());
        st.connection_errors = Some(consecutive_errors as i64);
        self.scrape.set(key1(labels.router.as_str()), st);
    }

    /// Sets the pool gauges: connections held and connections leased.
    pub fn update_pool_stats(&mut self, total: usize, active: usize)
        ensures
            final(self).pool_size == gauge_of(total as u64),
            final(self).pool_active == gauge_of(active as u64),
            final(self).collection_cycle_duration_ms == old(self).collection_cycle_duration_ms,
            same_families(*old(self), *final(self)),
    {
        self.pool_size = to_gauge(total as u64);
        self.pool_active = to_gauge(active as u64);
    }

    /// Sets how long the latest collection cycle took, in milliseconds.
    pub fn record_collection_cycle_duration(&mut self, millis: u64)
        ensures
            final(self).collection_cycle_duration_ms == gauge_of(millis),
            final(self).pool_size == old(self).pool_size,
            final(self).pool_active == old(self).pool_active,
            same_families(*old(self), *final(self)),
    {
        self.collection_cycle_duration_ms = to_gauge(millis);
    }

    /// Successful scrapes of a router so far.
    pub fn get_scrape_success_count(&self, labels: &RouterLabels) -> (r: u64)
        requires
            self.wf(),
        ensures
            r == scrape_or_empty(self.scrape.view(), labels.router@).success,
    {
        self.scrape_state(labels.router.as_str()).success
    }

    /// Failed scrapes of a router so far.
    pub fn get_scrape_error_count(&self, labels: &RouterLabels) -> (r: u64)
        requires
            self.wf(),
        ensures
            r == scrape_or_empty(self.scrape.view(), labels.router@).errors,
    {
        self.scrape_state(labels.router.as_str()).errors
    }

    /// The scrape bookkeeping of a router (all zero for one never seen).
    pub fn scrape_record(&self, labels: &RouterLabels) -> (r: ScrapeState)
        requires
            self.wf(),
        ensures
            r == scrape_or_empty(self.scrape.view(), labels.router@),
    {
        self.scrape_state(labels.router.as_str())
    }

    /// Failed scrapes of a router since its last successful one.
    pub fn get_failure_streak(&self, labels: &RouterLabels) -> (r: u64)
        requires
            self.wf(),
        ensures
            r == scrape_or_empty(self.scrape.view(), labels.router@).failure_streak,
    {
        self.scrape_state(labels.router.as_str()).failure_streak
    }

    /// Drops the interface series (counters, snapshot, running flag) of every interface
    /// not among `current`.
    pub fn cleanup_stale_interfaces(&mut self, current: &[InterfaceLabels])
        requires
            old(self).wf(),
        ensures
            final(self).wf(),
            final(self).interfaces.view() == old(self).interfaces.view().restrict(interface_keys(current@)),
            final(self).system == old(self).system,
            final(self).scrape == old(self).scrape,
            final(self).system_info == old(self).system_info,
            final(self).conntrack == old(self).conntrack,
            final(self).peers == old(self).peers,
            final(self).peer_info == old(self).peer_info,
    {
        let mut keep: Vec<bool> = Vec::new();
        let mut i: usize = 0;
        while i < self.interfaces.len()
            invariant
                self.wf(),
                self.interfaces == old(self).interfaces,
                i <= self.interfaces.keys@.len(),
                keep@.len() == i,
                forall|o: int| 0 <= o < i ==> #[trigger] keep@[o] == interface_keys(current@).contains(self.interfaces.key_at(o)),
            decreases self.interfaces.keys@.len() - i,
        {
            let mut found = false;
            let mut j: usize = 0;
            while j < current.len()
                invariant
                    j <= current@.len(),
                    i < self.interfaces.keys@.len(),
                    found == exists|a: int| 0 <= a < j && seq![current@[a].router@, current@[a].interface@] == self.interfaces.key_at(i as int),
                decreases current@.len() - j,
            {
                let key = key2(current[j].router.as_str(), current[j].interface.as_str());
                if labels_eq(&key, &self.interfaces.keys[i]) {
                    found = true;
                }
                j += 1;
            }
            keep.push(found);
            i += 1;
        }
        proof {
            self.interfaces.lemma_marked_restrict(keep@, interface_keys(current@));
        }
        self.interfaces.retain_marked(&keep);
    }

    /// Drops every connection-tracking and WireGuard series last seen more than `ttl`
    /// milliseconds before `now`.
    pub fn cleanup_expired_dynamic_labels(&mut self, ttl: u64, now: u64)
        requires
            old(self).wf(),
        ensures
            final(self).wf(),
            final(self).conntrack.view() == old(self).conntrack.view().restrict(
                unexpired(old(self).conntrack.view(), ttl, now),
            ),
            final(self).peers.view() == old(self).peers.view().restrict(
                unexpired_peers(old(self).peers.view(), ttl, now),
            ),
            final(self).peer_info.view() == old(self).peer_info.view().restrict(
                unexpired(old(self).peer_info.view(), ttl, now),
            ),
            final(self).interfaces == old(self).interfaces,
            final(self).system == old(self).system,
            final(self).scrape == old(self).scrape,
            final(self).system_info == old(self).system_info,
    {
        keep_unexpired(&mut self.conntrack, ttl, now);
        keep_unexpired_peers(&mut self.peers, ttl, now);
        keep_unexpired(&mut self.peer_info, ttl, now);
    }

    /// Drops every series, of every family, whose router is not among `active_routers`.
    pub fn cleanup_stale_routers(&mut self, active_routers: &[String])
        requires
            old(self).wf(),
        ensures
            final(self).wf(),
            final(self).interfaces.view() == old(self).interfaces.view().restrict(router_keys(active_routers@)),
            final(self).system.view() == old(self).system.view().restrict(router_keys(active_routers@)),
            final(self).scrape.view() == old(self).scrape.view().restrict(router_keys(active_routers@)),
            final(self).system_info.view() == old(self).system_info.view().restrict(router_keys(active_routers@)),
            final(self).conntrack.view() == old(self).conntrack.view().restrict(router_keys(active_routers@)),
            final(self).peers.view() == old(self).peers.view().restrict(router_keys(active_routers@)),
            final(self).peer_info.view() == old(self).peer_info.view().restrict(router_keys(active_routers@)),
            same_globals(*old(self), *final(self)),
    {
        keep_routers(&mut self.interfaces, active_routers);
        keep_routers(&mut self.system, active_routers);
        keep_routers(&mut self.scrape, active_routers);
        keep_routers(&mut self.system_info, active_routers);
        keep_routers(&mut self.conntrack, active_routers);
        keep_routers(&mut self.peers, active_routers);
        keep_routers(&mut self.peer_info, active_routers);
    }

    /// Counters of an interface, all zero where it has no series.
    pub fn interface_totals(&self, router: &str, interface: &str) -> (r: InterfaceCounters)
        requires
            self.wf(),
        ensures
            r == if self.interfaces.view().contains_key(seq![router@, interface@]) {
                self.interfaces.view()[seq![router@, interface@]].totals
            } else {
                zero_counters()
            },
    {
        match self.interfaces.get(&key2(router, interface)) {
            Some(s) => s.totals,
            None => InterfaceCounters {
                rx_bytes: 0,
                tx_bytes: 0,
                rx_packets: 0,
                tx_packets: 0,
                rx_errors: 0,
                tx_errors: 0,
            },
        }
    }

    /// Running flag of an interface, if it has a series.
    pub fn interface_running(&self, router: &str, interface: &str) -> (r: Option<bool>)
        requires
            self.wf(),
        ensures
            r == if self.interfaces.view().contains_key(seq![router@, interface@]) {
                Some(self.interfaces.view()[seq![router@, interface@]].running)
            } else {
                None
            },
    {
        match self.interfaces.get(&key2(router, interface)) {
            Some(s) => Some(s.running),
            None => None,
        }
    }

    /// System gauges of a router, if it has them.
    pub fn system_gauges(&self, router: &str) -> (r: Option<SystemGauges>)
        requires
            self.wf(),
        ensures
            r == if self.system.view().contains_key(seq![router@]) {
                Some(self.system.view()[seq![router@]])
            } else {
                None
            },
    {
        self.system.get(&key1(router))
    }

    /// Value of an info series, if it exists.
    pub fn system_info_value(&self, router: &str, version: &str, board: &str) -> (r: Option<i64>)
        requires
            self.wf(),
        ensures
            r == if self.system_info.view().contains_key(seq![router@, version@, board@]) {
                Some(self.system_info.view()[seq![router@, version@, board@]])
            } else {
                None
            },
    {
        self.system_info.get(&key3(router, version, board))
    }

    /// Value of a connection-tracking series, if it exists.
    pub fn conntrack_value(&self, router: &str, src_address: &str, protocol: &str, ip_version: &str) -> (r: Option<i64>)
        requires
            self.wf(),
        ensures
            r == if self.conntrack.view().contains_key(seq![router@, src_address@, protocol@, ip_version@]) {
                Some(self.conntrack.view()[seq![router@, src_address@, protocol@, ip_version@]].value)
            } else {
                None
            },
    {
        match self.conntrack.get(&key4(router, src_address, protocol, ip_version)) {
            Some(s) => Some(s.value),
            None => None,
        }
    }

    /// Gauges of a WireGuard peer, if it has them.
    pub fn peer_gauges(&self, router: &str, interface: &str, allowed_address: &str) -> (r: Option<PeerGauges>)
        requires
            self.wf(),
        ensures
            r == if self.peers.view().contains_key(seq![router@, interface@, allowed_address@]) {
                Some(self.peers.view()[seq![router@, interface@, allowed_address@]])
            } else {
                None
            },
    {
        self.peers.get(&key3(router, interface, allowed_address))
    }
}

/// The families that one scrape's record `m` updates, as `update_metrics` leaves them
/// at monotonic time `now`: interface counters by their deltas, system gauges, the info
/// series, connection tracking and WireGuard peers.
pub open spec fn scrape_applied(a: MetricsRegistry, b: MetricsRegistry, m: RouterMetrics, now: u64) -> bool {
    &&& b.interfaces.view() == apply_interfaces(
            a.interfaces.view(),
            m.router_name@,
            m.interfaces@,
        )
    &&& b.system.view() == a.system.view().insert(
            seq![m.router_name@],
            SystemGauges {
                cpu_load: gauge_of(m.system.cpu_load),
                free_memory: gauge_of(m.system.free_memory),
                total_memory: gauge_of(m.system.total_memory),
                uptime_seconds: gauge_of(uptime_seconds(m.system.uptime@)),
            },
        )
    &&& b.system_info.view() == zero_router(
            a.system_info.view(),
            m.router_name@,
        ).insert(
            seq![m.router_name@, m.system.version@, m.system.board_name@],
            1,
        )
    &&& b.conntrack.view() == reset_stamped(
            observe_conntrack(
                a.conntrack.view(),
                m.router_name@,
                m.connection_tracking@,
                now,
            ),
            m.router_name@,
            conntrack_keys(m.router_name@, m.connection_tracking@),
        )
    &&& b.peers.view() == reset_peers(
            observe_peers(
                a.peers.view(),
                m.router_name@,
                dedup_peers(m.wireguard_peers@),
                now,
            ),
            m.router_name@,
            peer_keys(m.router_name@, dedup_peers(m.wireguard_peers@)),
        )
    &&& b.peer_info.view() == reset_stamped(
            observe_peer_info(
                a.peer_info.view(),
                m.router_name@,
                dedup_peers(m.wireguard_peers@),
                now,
            ),
            m.router_name@,
            peer_info_keys(m.router_name@, dedup_peers(m.wireguard_peers@)),
        )
}

/// The pool and cycle gauges are the same in `a` and `b`.
pub open spec fn same_globals(a: MetricsRegistry, b: MetricsRegistry) -> bool {
    &&& b.collection_cycle_duration_ms == a.collection_cycle_duration_ms
    &&& b.pool_size == a.pool_size
    &&& b.pool_active == a.pool_active
}

/// Only the scrape bookkeeping differs between `a` and `b`.
pub open spec fn only_scrape_changed(a: MetricsRegistry, b: MetricsRegistry) -> bool {
    &&& b.interfaces == a.interfaces
    &&& b.system == a.system
    &&& b.system_info == a.system_info
    &&& b.conntrack == a.conntrack
    &&& b.peers == a.peers
    &&& b.peer_info == a.peer_info
    &&& same_globals(a, b)
}

/// Only the scrape bookkeeping and the pool and cycle gauges may differ.
pub open spec fn same_families(a: MetricsRegistry, b: MetricsRegistry) -> bool {
    &&& b.interfaces == a.interfaces
    &&& b.system == a.system
    &&& b.scrape == a.scrape
    &&& b.system_info == a.system_info
    &&& b.conntrack == a.conntrack
    &&& b.peers == a.peers
    &&& b.peer_info == a.peer_info
}

/// A router's info series after an update: the series of the update reads 1 and every
/// other series of the router reads 0, so exactly one reads 1.
pub proof fn lemma_info_single_one(m: Map<Seq<Seq<char>>, i64>, r: Seq<char>, version: Seq<char>, board: Seq<char>)
    ensures
        ({
            let after = zero_router(m, r).insert(seq![r, version, board], 1);
            &&& after[seq![r, version, board]] == 1
            &&& forall|k: Seq<Seq<char>>|
                #![trigger after[k]]
                after.contains_key(k) && k.len() > 0 && k[0] == r && after[k] == 1 ==> k == seq![r, version, board]
        }),
{
}

} // verus!

verus! {

/// Every counter of `a` is at least the matching counter of `b`.
pub open spec fn counters_ge(a: InterfaceCounters, b: InterfaceCounters) -> bool {
    &&& a.rx_bytes >= b.rx_bytes
    &&& a.tx_bytes >= b.tx_bytes
    &&& a.rx_packets >= b.rx_packets
    &&& a.tx_packets >= b.tx_packets
    &&& a.rx_errors >= b.rx_errors
    &&& a.tx_errors >= b.tx_errors
}

/// Counters never decrease: whatever a router reports next, every counter of an
/// interface that already has series is at least what it was.
pub proof fn lemma_counters_monotone(
    m: Map<Seq<Seq<char>>, InterfaceState>,
    r: Seq<char>,
    s: Seq<InterfaceStats>,
    k: Seq<Seq<char>>,
)
    requires
        m.contains_key(k),
    ensures
        apply_interfaces(m, r, s).contains_key(k),
        counters_ge(apply_interfaces(m, r, s)[k].totals, m[k].totals),
    decreases s.len(),
{
    if s.len() > 0 {
        lemma_counters_monotone(m, r, s.drop_last(), k);
    }
}

/// No two interfaces of a record share a name.
pub open spec fn names_unique(s: Seq<InterfaceStats>) -> bool {
    forall|a: int, b: int| 0 <= a < b < s.len() ==> (#[trigger] s[a]).name@ != (#[trigger] s[b]).name@
}

proof fn lemma_apply_untouched(
    m: Map<Seq<Seq<char>>, InterfaceState>,
    r: Seq<char>,
    s: Seq<InterfaceStats>,
    k: Seq<Seq<char>>,
)
    requires
        forall|j: int| 0 <= j < s.len() ==> iface_key(r, #[trigger] s[j]) != k,
    ensures
        apply_interfaces(m, r, s).contains_key(k) == m.contains_key(k),
        m.contains_key(k) ==> apply_interfaces(m, r, s)[k] == m[k],
    decreases s.len(),
{
    if s.len() > 0 {
        assert forall|j: int| 0 <= j < s.drop_last().len() implies iface_key(r, #[trigger] s.drop_last()[j]) != k by {
            assert(s.drop_last()[j] == s[j]);
        }
        lemma_apply_untouched(m, r, s.drop_last(), k);
        assert(iface_key(r, s[s.len() - 1]) != k);
    }
}

/// In a record whose interface names are unique, each interface's series is its
/// earlier series after that one observation.
pub proof fn lemma_record_applies_each(
    m: Map<Seq<Seq<char>>, InterfaceState>,
    r: Seq<char>,
    s: Seq<InterfaceStats>,
    j: int,
)
    requires
        names_unique(s),
        0 <= j < s.len(),
    ensures
        apply_interfaces(m, r, s).contains_key(iface_key(r, s[j])),
        apply_interfaces(m, r, s)[iface_key(r, s[j])] == applied(
            if m.contains_key(iface_key(r, s[j])) {
                Some(m[iface_key(r, s[j])])
            } else {
                None
            },
            s[j],
        ),
    decreases s.len(),
{
    let k = iface_key(r, s[j]);
    let p = s.drop_last();
    if j == s.len() - 1 {
        assert forall|a: int| 0 <= a < p.len() implies iface_key(r, #[trigger] p[a]) != k by {
            assert(p[a] == s[a]);
            assert(s[a].name@ != s[j].name@);
            if iface_key(r, p[a]) == k {
                assert(iface_key(r, p[a])[1] == k[1]);
            }
        }
        lemma_apply_untouched(m, r, p, k);
    } else {
        assert(names_unique(p)) by {
            assert forall|a: int, b: int| 0 <= a < b < p.len() implies (#[trigger] p[a]).name@ != (#[trigger] p[b]).name@ by {
                assert(p[a] == s[a] && p[b] == s[b]);
            }
        }
        assert(p[j] == s[j]);
        lemma_record_applies_each(m, r, p, j);
        let last = s[s.len() - 1];
        assert(last.name@ != s[j].name@);
        assert(iface_key(r, last) != k) by {
            if iface_key(r, last) == k {
                assert(iface_key(r, last)[1] == k[1]);
            }
        }
    }
}

/// After a router's record, every counter of an interface seen for the first time reads
/// zero (names in the record unique).
pub proof fn lemma_first_scrape_reads_zero(
    m: Map<Seq<Seq<char>>, InterfaceState>,
    r: Seq<char>,
    s: Seq<InterfaceStats>,
    j: int,
)
    requires
        names_unique(s),
        0 <= j < s.len(),
        !m.contains_key(iface_key(r, s[j])),
    ensures
        apply_interfaces(m, r, s)[iface_key(r, s[j])].totals == zero_counters(),
{
    lemma_record_applies_each(m, r, s, j);
}

/// After a router's record, each counter of an interface seen before grows by exactly
/// the increase of the device value over the previous snapshot when it did not go back
/// (and the sum fits in 64 bits), and not at all when it went back; the snapshot becomes
/// the record's values (names in the record unique).
pub proof fn lemma_record_delta(
    m: Map<Seq<Seq<char>>, InterfaceState>,
    r: Seq<char>,
    s: Seq<InterfaceStats>,
    j: int,
)
    requires
        names_unique(s),
        0 <= j < s.len(),
        m.contains_key(iface_key(r, s[j])),
    ensures
        ({
            let before = m[iface_key(r, s[j])];
            let after = apply_interfaces(m, r, s)[iface_key(r, s[j])];
            let i = s[j];
            &&& after.snapshot == counters_of(i)
            &&& steps_by_delta(after.totals.rx_bytes, before.totals.rx_bytes, before.snapshot.rx_bytes, i.rx_bytes)
            &&& steps_by_delta(after.totals.tx_bytes, before.totals.tx_bytes, before.snapshot.tx_bytes, i.tx_bytes)
            &&& steps_by_delta(after.totals.rx_packets, before.totals.rx_packets, before.snapshot.rx_packets, i.rx_packets)
            &&& steps_by_delta(after.totals.tx_packets, before.totals.tx_packets, before.snapshot.tx_packets, i.tx_packets)
            &&& steps_by_delta(after.totals.rx_errors, before.totals.rx_errors, before.snapshot.rx_errors, i.rx_errors)
            &&& steps_by_delta(after.totals.tx_errors, before.totals.tx_errors, before.snapshot.tx_errors, i.tx_errors)
        }),
{
    lemma_record_applies_each(m, r, s, j);
    lemma_delta_exact(m[iface_key(r, s[j])], s[j]);
}

/// The exported counter after one step from device value `prev` to `cur`: it grows by
/// exactly `cur - prev` when the device value did not go back (and the sum fits), and
/// stays when it went back.
pub open spec fn steps_by_delta(new: u64, total: u64, prev: u64, cur: u64) -> bool {
    &&& (cur >= prev && total + (cur - prev) <= u64::MAX ==> new == total + (cur - prev))
    &&& (cur < prev ==> new == total)
}

/// Each counter of an interface grows by the increase of the device value since the
/// previous scrape, or by nothing when the device value went back.
pub proof fn lemma_delta_exact(before: InterfaceState, i: InterfaceStats)
    ensures
        ({
            let after = applied(Some(before), i).totals;
            let t = before.totals;
            let p = before.snapshot;
            &&& steps_by_delta(after.rx_bytes, t.rx_bytes, p.rx_bytes, i.rx_bytes)
            &&& steps_by_delta(after.tx_bytes, t.tx_bytes, p.tx_bytes, i.tx_bytes)
            &&& steps_by_delta(after.rx_packets, t.rx_packets, p.rx_packets, i.rx_packets)
            &&& steps_by_delta(after.tx_packets, t.tx_packets, p.tx_packets, i.tx_packets)
            &&& steps_by_delta(after.rx_errors, t.rx_errors, p.rx_errors, i.rx_errors)
            &&& steps_by_delta(after.tx_errors, t.tx_errors, p.tx_errors, i.tx_errors)
        }),
{
}

proof fn lemma_observe_keeps(
    m: Map<Seq<Seq<char>>, Stamped>,
    r: Seq<char>,
    s: Seq<ConnectionTrackingStats>,
    now: u64,
    k: Seq<Seq<char>>,
)
    requires
        m.contains_key(k),
        !conntrack_keys(r, s).contains(k),
    ensures
        observe_conntrack(m, r, s, now).contains_key(k),
        observe_conntrack(m, r, s, now)[k] == m[k],
    decreases s.len(),
{
    if s.len() > 0 {
        assert(!conntrack_keys(r, s.drop_last()).contains(k)) by {
            if conntrack_keys(r, s.drop_last()).contains(k) {
                let j = choose|j: int| 0 <= j < s.drop_last().len() && conntrack_key(r, s.drop_last()[j]) == k;
                assert(conntrack_key(r, s[j]) == k);
            }
        }
        lemma_observe_keeps(m, r, s.drop_last(), now, k);
        assert(conntrack_key(r, s[s.len() - 1]) != k);
    }
}

/// A connection-tracking series of a router that the router's latest scrape did not
/// report reads 0, and is still there.
pub proof fn lemma_unobserved_reads_zero(
    m: Map<Seq<Seq<char>>, Stamped>,
    r: Seq<char>,
    s: Seq<ConnectionTrackingStats>,
    now: u64,
    k: Seq<Seq<char>>,
)
    requires
        m.contains_key(k),
        k.len() > 0,
        k[0] == r,
        !conntrack_keys(r, s).contains(k),
    ensures
        reset_stamped(observe_conntrack(m, r, s, now), r, conntrack_keys(r, s)).contains_key(k),
        reset_stamped(observe_conntrack(m, r, s, now), r, conntrack_keys(r, s))[k].value == 0,
{
    lemma_observe_keeps(m, r, s, now, k);
}

/// A dynamic series last seen longer than the TTL ago is gone after the TTL cleanup.
pub proof fn lemma_expired_removed(m: Map<Seq<Seq<char>>, Stamped>, ttl: u64, now: u64, k: Seq<Seq<char>>)
    requires
        m.contains_key(k),
        crate::pool::elapsed(m[k].last_seen, now) > ttl,
    ensures
        !m.restrict(unexpired(m, ttl, now)).contains_key(k),
{
}

} // verus!
