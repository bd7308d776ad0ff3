//! Rendering of the registry in the text exposition format: the registry's series are
//! laid out family by family, with their label names, and handed to prometheus-client's
//! encoder.
use crate::registry::{InterfaceState, MetricsRegistry, PeerGauges, ScrapeState, Stamped, SystemGauges};
use crate::table::{labels_view, Table};
use crate::text::{contains_spec, owned};
use prometheus_client::encoding::text::encode;
use prometheus_client::metrics::counter::Counter;
use prometheus_client::metrics::family::Family;
use prometheus_client::metrics::gauge::Gauge;
use prometheus_client::registry::Registry;
use vstd::prelude::*;

verus! {

/// Series of one counter family: label name/value pairs and the count.
pub struct CounterFamily {
    pub name: String,
    pub help: String,
    pub series: Vec<(Vec<(String, String)>, u64)>,
}

/// Series of one gauge family: label name/value pairs and the value.
pub struct GaugeFamily {
    pub name: String,
    pub help: String,
    pub series: Vec<(Vec<(String, String)>, i64)>,
}

#[verifier::external_type_specification]
#[verifier::external_body]
pub struct ExRegistry(Registry);

/// The families a registry holds, in order of registration: name, help text, whether
/// it is a counter (else a gauge), and whether it holds at least one series.
pub uninterp spec fn registered_families(r: Registry) -> Seq<(Seq<char>, Seq<char>, bool, bool)>;

/// The lines that the text format holds for a family with series: its `# HELP` line (the
/// help text ends with a full stop), its `# TYPE` line, and for a counter the `_total`
/// sample name.
pub open spec fn family_text(t: Seq<char>, name: Seq<char>, help: Seq<char>, counter: bool) -> bool {
    &&& contains_spec(t, "# HELP "@ + name + " "@ + help + ".\n"@)
    &&& contains_spec(
        t,
        "# TYPE "@ + name + if counter {
            " counter\n"@
        } else {
            " gauge\n"@
        },
    )
    &&& counter ==> contains_spec(t, name + "_total"@)
}

/// Relies on `Registry::default`: a registry without metrics.
#[verifier::external_body]
fn new_registry() -> (r: Registry)
    ensures
        registered_families(r) == Seq::<(Seq<char>, Seq<char>, bool, bool)>::empty(),
{
    Registry::default()
}

/// Relies on prometheus-client's `Family::get_or_create`, `Counter::inc_by` and
/// `Registry::register`: the family, with its series, joins the registry as a counter.
#[verifier::external_body]
fn register_counters(registry: &mut Registry, f: &CounterFamily)
    ensures
        registered_families(*final(registry)) == registered_families(*old(registry)).push(
            (f.name@, f.help@, true, f.series@.len() > 0),
        ),
{
    let family = Family::<Vec<(String, String)>, Counter>::default();
    for (labels, v) in &f.series {
        family.get_or_create(labels).inc_by(*v);
    }
    registry.register(f.name.clone(), f.help.clone(), family);
}

/// Relies on prometheus-client's `Family::get_or_create`, `Gauge::set` and
/// `Registry::register`: the family, with its series, joins the registry as a gauge.
#[verifier::external_body]
fn register_gauges(registry: &mut Registry, f: &GaugeFamily)
    ensures
        registered_families(*final(registry)) == registered_families(*old(registry)).push(
            (f.name@, f.help@, false, f.series@.len() > 0),
        ),
{
    let family = Family::<Vec<(String, String)>, Gauge>::default();
    for (labels, v) in &f.series {
        family.get_or_create(labels).set(*v);
    }
    registry.register(f.name.clone(), f.help.clone(), family);
}

/// Relies on prometheus-client's `encoding::text::encode`: the registry in the text
/// format. Writing into a `String` does not fail and the encoder's own error concerns
/// native histograms, which are never registered, so a text comes back. Every family
/// with series has its `# HELP` and `# TYPE` lines (`Registry::register` appends a full
/// stop to the help), and a counter's samples are named with the `_total` suffix;
/// families without series are left out. Series come in hash-map order, so their lines
/// are not placed.
#[verifier::external_body]
fn encode_registry(registry: &Registry) -> (r: Option<String>)
    ensures
        r is Some,
        r matches Some(t) ==> forall|i: int|
            0 <= i < registered_families(*registry).len() && (#[trigger] registered_families(*registry)[i]).3
                ==> family_text(t@, registered_families(*registry)[i].0, registered_families(*registry)[i].1, registered_families(*registry)[i].2),
{
    let mut out = String::new();
    encode(&mut out, registry).ok().map(|()| out)
}

/// Label name/value pairs as character sequences.
pub open spec fn pairs_view(v: Vec<(String, String)>) -> Seq<(Seq<char>, Seq<char>)> {
    v@.map_values(|p: (String, String)| (p.0@, p.1@))
}

/// Label names of a family zipped with a series' label values.
pub open spec fn label_pairs_spec(names: Seq<&str>, values: Seq<Seq<char>>) -> Seq<(Seq<char>, Seq<char>)> {
    Seq::new(
        if names.len() < values.len() {
            names.len()
        } else {
            values.len()
        },
        |j: int| (names[j]@, values[j]),
    )
}

/// Label name/value pairs from the label names of a family and a series' values.
pub fn label_pairs(names: &[&str], values: &Vec<String>) -> (r: Vec<(String, String)>)
    ensures
        pairs_view(r) == label_pairs_spec(names@, labels_view(*values)),
{
    let mut out: Vec<(String, String)> = Vec::new();
    let mut i: usize = 0;
    while i < names.len() && i < values.len()
        invariant
            i <= names@.len(),
            i <= values@.len(),
            out@.len() == i,
            forall|j: int| 0 <= j < i ==> (#[trigger] out@[j]).0@ == names@[j]@ && out@[j].1@ == values@[j]@,
        decreases names@.len() - i,
    {
        out.push((owned(names[i]), values[i].clone()));
        i += 1;
    }
    assert(pairs_view(out) =~= label_pairs_spec(names@, labels_view(*values)));
    out
}

/// The first `n` series of `s` are the column `vals` of a table with keys `keys`,
/// labelled with `names`, in table order.
pub open spec fn column_is<T>(
    s: Seq<(Vec<(String, String)>, T)>,
    names: Seq<&str>,
    keys: Seq<Vec<String>>,
    vals: Seq<T>,
    n: int,
) -> bool {
    &&& s.len() == n
    &&& forall|i: int|
        0 <= i < n ==> pairs_view((#[trigger] s[i]).0) == label_pairs_spec(names, labels_view(keys[i]))
            && s[i].1 == vals[i]
}

pub open spec fn series_view(s: Seq<(Vec<(String, String)>, i64)>) -> Seq<(Seq<(Seq<char>, Seq<char>)>, i64)> {
    s.map_values(|e: (Vec<(String, String)>, i64)| (pairs_view(e.0), e.1))
}

/// The series of the rows among the first `n` that have a value, in table order.
pub open spec fn present_column(
    names: Seq<&str>,
    keys: Seq<Vec<String>>,
    vals: Seq<Option<i64>>,
    n: int,
) -> Seq<(Seq<(Seq<char>, Seq<char>)>, i64)>
    decreases n,
{
    if n <= 0 {
        Seq::empty()
    } else {
        let p = present_column(names, keys, vals, n - 1);
        match vals[n - 1] {
            Some(v) => p.push((label_pairs_spec(names, labels_view(keys[n - 1])), v)),
            None => p,
        }
    }
}

pub open spec fn counter_family_is(
    f: CounterFamily,
    name: Seq<char>,
    names: Seq<&str>,
    keys: Seq<Vec<String>>,
    vals: Seq<u64>,
) -> bool {
    f.name@ == name && column_is(f.series@, names, keys, vals, keys.len() as int)
}

pub open spec fn gauge_family_is(
    f: GaugeFamily,
    name: Seq<char>,
    names: Seq<&str>,
    keys: Seq<Vec<String>>,
    vals: Seq<i64>,
) -> bool {
    f.name@ == name && column_is(f.series@, names, keys, vals, keys.len() as int)
}

pub open spec fn gauge_present_is(
    f: GaugeFamily,
    name: Seq<char>,
    names: Seq<&str>,
    keys: Seq<Vec<String>>,
    vals: Seq<Option<i64>>,
) -> bool {
    f.name@ == name && series_view(f.series@) == present_column(names, keys, vals, keys.len() as int)
}

/// A family of one series without labels.
pub open spec fn gauge_single_is(f: GaugeFamily, name: Seq<char>, v: i64) -> bool {
    &&& f.name@ == name
    &&& f.series@.len() == 1
    &&& f.series@[0].0@.len() == 0
    &&& f.series@[0].1 == v
}

/// Counter `f` of an interface: rx/tx bytes, rx/tx packets, rx/tx errors, in that
/// order.
pub open spec fn counter_field(c: crate::registry::InterfaceCounters, f: int) -> u64 {
    if f == 0 {
        c.rx_bytes
    } else if f == 1 {
        c.tx_bytes
    } else if f == 2 {
        c.rx_packets
    } else if f == 3 {
        c.tx_packets
    } else if f == 4 {
        c.rx_errors
    } else {
        c.tx_errors
    }
}

pub open spec fn counter_col(v: Seq<InterfaceState>, f: int) -> Seq<u64> {
    v.map_values(|st: InterfaceState| counter_field(st.totals, f))
}

pub open spec fn running_col(v: Seq<InterfaceState>) -> Seq<i64> {
    v.map_values(|st: InterfaceState| if st.running { 1i64 } else { 0i64 })
}

/// System gauge `f`: CPU load, free memory, total memory, uptime.
pub open spec fn system_field(g: SystemGauges, f: int) -> i64 {
    if f == 0 {
        g.cpu_load
    } else if f == 1 {
        g.free_memory
    } else if f == 2 {
        g.total_memory
    } else {
        g.uptime_seconds
    }
}

pub open spec fn system_col(v: Seq<SystemGauges>, f: int) -> Seq<i64> {
    v.map_values(|g: SystemGauges| system_field(g, f))
}

pub open spec fn scrape_count_col(v: Seq<ScrapeState>, errors: bool) -> Seq<u64> {
    v.map_values(|s: ScrapeState| if errors { s.errors } else { s.success })
}

/// Optional scrape gauge `f`: duration, last success time, connection errors.
pub open spec fn scrape_field(s: ScrapeState, f: int) -> Option<i64> {
    if f == 0 {
        s.duration_ms
    } else if f == 1 {
        s.last_success_timestamp
    } else {
        s.connection_errors
    }
}

pub open spec fn scrape_col(v: Seq<ScrapeState>, f: int) -> Seq<Option<i64>> {
    v.map_values(|s: ScrapeState| scrape_field(s, f))
}

pub open spec fn stamped_col(v: Seq<Stamped>) -> Seq<i64> {
    v.map_values(|s: Stamped| s.value)
}

/// Peer gauge `f`: received bytes, sent bytes, latest handshake.
pub open spec fn peer_field(g: PeerGauges, f: int) -> i64 {
    if f == 0 {
        g.rx_bytes
    } else if f == 1 {
        g.tx_bytes
    } else {
        g.latest_handshake
    }
}

pub open spec fn peer_col(v: Seq<PeerGauges>, f: int) -> Seq<i64> {
    v.map_values(|g: PeerGauges| peer_field(g, f))
}

fn gauge_family(name: &str, help: &str, series: Vec<(Vec<(String, String)>, i64)>) -> (r: GaugeFamily)
    ensures
        r.name@ == name@,
        r.series@ == series@,
{
    GaugeFamily { name: owned(name), help: owned(help), series }
}

fn counter_family(name: &str, help: &str, series: Vec<(Vec<(String, String)>, u64)>) -> (r: CounterFamily)
    ensures
        r.name@ == name@,
        r.series@ == series@,
{
    CounterFamily { name: owned(name), help: owned(help), series }
}

fn interface_column(t: &Table<InterfaceState>, names: &[&str], f: usize) -> (r: Vec<(Vec<(String, String)>, u64)>)
    requires
        t.wf(),
    ensures
        column_is(r@, names@, t.keys@, counter_col(t.vals@, f as int), t.keys@.len() as int),
{
    let mut out: Vec<(Vec<(String, String)>, u64)> = Vec::new();
    let mut i: usize = 0;
    while i < t.keys.len()
        invariant
            t.wf(),
            i <= t.keys@.len(),
            column_is(out@, names@, t.keys@, counter_col(t.vals@, f as int), i as int),
        decreases t.keys@.len() - i,
    {
        let c = t.vals[i].totals;
        let v = if f == 0 {
            c.rx_bytes
        } else if f == 1 {
            c.tx_bytes
        } else if f == 2 {
            c.rx_packets
        } else if f == 3 {
            c.tx_packets
        } else if f == 4 {
            c.rx_errors
        } else {
            c.tx_errors
        };
        out.push((label_pairs(names, &t.keys[i]), v));
        i += 1;
    }
    out
}

fn running_column(t: &Table<InterfaceState>, names: &[&str]) -> (r: Vec<(Vec<(String, String)>, i64)>)
    requires
        t.wf(),
    ensures
        column_is(r@, names@, t.keys@, running_col(t.vals@), t.keys@.len() as int),
{
    let mut out: Vec<(Vec<(String, String)>, i64)> = Vec::new();
    let mut i: usize = 0;
    while i < t.keys.len()
        invariant
            t.wf(),
            i <= t.keys@.len(),
            column_is(out@, names@, t.keys@, running_col(t.vals@), i as int),
        decreases t.keys@.len() - i,
    {
        let v: i64 = if t.vals[i].running {
            1
        } else {
            0
        };
        out.push((label_pairs(names, &t.keys[i]), v));
        i += 1;
    }
    out
}

fn system_column(t: &Table<SystemGauges>, names: &[&str], f: usize) -> (r: Vec<(Vec<(String, String)>, i64)>)
    requires
        t.wf(),
    ensures
        column_is(r@, names@, t.keys@, system_col(t.vals@, f as int), t.keys@.len() as int),
{
    let mut out: Vec<(Vec<(String, String)>, i64)> = Vec::new();
    let mut i: usize = 0;
    while i < t.keys.len()
        invariant
            t.wf(),
            i <= t.keys@.len(),
            column_is(out@, names@, t.keys@, system_col(t.vals@, f as int), i as int),
        decreases t.keys@.len() - i,
    {
        let g = t.vals[i];
        let v = if f == 0 {
            g.cpu_load
        } else if f == 1 {
            g.free_memory
        } else if f == 2 {
            g.total_memory
        } else {
            g.uptime_seconds
        };
        out.push((label_pairs(names, &t.keys[i]), v));
        i += 1;
    }
    out
}

fn scrape_count_column(t: &Table<ScrapeState>, names: &[&str], errors: bool) -> (r: Vec<(Vec<(String, String)>, u64)>)
    requires
        t.wf(),
    ensures
        column_is(r@, names@, t.keys@, scrape_count_col(t.vals@, errors), t.keys@.len() as int),
{
    let mut out: Vec<(Vec<(String, String)>, u64)> = Vec::new();
    let mut i: usize = 0;
    while i < t.keys.len()
        invariant
            t.wf(),
            i <= t.keys@.len(),
            column_is(out@, names@, t.keys@, scrape_count_col(t.vals@, errors), i as int),
        decreases t.keys@.len() - i,
    {
        let v = if errors {
            t.vals[i].errors
        } else {
            t.vals[i].success
        };
        out.push((label_pairs(names, &t.keys[i]), v));
        i += 1;
    }
    out
}

fn scrape_gauge_column(t: &Table<ScrapeState>, names: &[&str], f: usize) -> (r: Vec<(Vec<(String, String)>, i64)>)
    requires
        t.wf(),
    ensures
        series_view(r@) == present_column(names@, t.keys@, scrape_col(t.vals@, f as int), t.keys@.len() as int),
{
    let mut out: Vec<(Vec<(String, String)>, i64)> = Vec::new();
    let mut i: usize = 0;
    while i < t.keys.len()
        invariant
            t.wf(),
            i <= t.keys@.len(),
            series_view(out@) == present_column(names@, t.keys@, scrape_col(t.vals@, f as int), i as int),
        decreases t.keys@.len() - i,
    {
        let s = t.vals[i];
        let o = if f == 0 {
            s.duration_ms
        } else if f == 1 {
            s.last_success_timestamp
        } else {
            s.connection_errors
        };
        let ghost before = out@;
        match o {
            Some(v) => {
                out.push((label_pairs(names, &t.keys[i]), v));
                assert(series_view(out@) =~= series_view(before).push(
                    (label_pairs_spec(names@, labels_view(t.keys@[i as int])), v),
                ));
            },
            None => {},
        }
        i += 1;
    }
    out
}

fn value_column(t: &Table<i64>, names: &[&str]) -> (r: Vec<(Vec<(String, String)>, i64)>)
    requires
        t.wf(),
    ensures
        column_is(r@, names@, t.keys@, t.vals@, t.keys@.len() as int),
{
    let mut out: Vec<(Vec<(String, String)>, i64)> = Vec::new();
    let mut i: usize = 0;
    while i < t.keys.len()
        invariant
            t.wf(),
            i <= t.keys@.len(),
            column_is(out@, names@, t.keys@, t.vals@, i as int),
        decreases t.keys@.len() - i,
    {
        out.push((label_pairs(names, &t.keys[i]), t.vals[i]));
        i += 1;
    }
    out
}

fn stamped_column(t: &Table<Stamped>, names: &[&str]) -> (r: Vec<(Vec<(String, String)>, i64)>)
    requires
        t.wf(),
    ensures
        column_is(r@, names@, t.keys@, stamped_col(t.vals@), t.keys@.len() as int),
{
    let mut out: Vec<(Vec<(String, String)>, i64)> = Vec::new();
    let mut i: usize = 0;
    while i < t.keys.len()
        invariant
            t.wf(),
            i <= t.keys@.len(),
            column_is(out@, names@, t.keys@, stamped_col(t.vals@), i as int),
        decreases t.keys@.len() - i,
    {
        out.push((label_pairs(names, &t.keys[i]), t.vals[i].value));
        i += 1;
    }
    out
}

fn peer_column(t: &Table<PeerGauges>, names: &[&str], f: usize) -> (r: Vec<(Vec<(String, String)>, i64)>)
    requires
        t.wf(),
    ensures
        column_is(r@, names@, t.keys@, peer_col(t.vals@, f as int), t.keys@.len() as int),
{
    let mut out: Vec<(Vec<(String, String)>, i64)> = Vec::new();
    let mut i: usize = 0;
    while i < t.keys.len()
        invariant
            t.wf(),
            i <= t.keys@.len(),
            column_is(out@, names@, t.keys@, peer_col(t.vals@, f as int), i as int),
        decreases t.keys@.len() - i,
    {
        let g = t.vals[i];
        let v = if f == 0 {
            g.rx_bytes
        } else if f == 1 {
            g.tx_bytes
        } else {
            g.latest_handshake
        };
        out.push((label_pairs(names, &t.keys[i]), v));
        i += 1;
    }
    out
}

fn single(v: i64) -> (r: Vec<(Vec<(String, String)>, i64)>)
    ensures
        r@.len() == 1,
        r@[0].0@.len() == 0,
        r@[0].1 == v,
{
    let mut out: Vec<(Vec<(String, String)>, i64)> = Vec::new();
    out.push((Vec::new(), v));
    out
}

pub open spec fn iface_labels() -> Seq<&'static str> {
    seq!["router", "interface"]
}

pub open spec fn router_labels() -> Seq<&'static str> {
    seq!["router"]
}

pub open spec fn info_labels() -> Seq<&'static str> {
    seq!["router", "version", "board"]
}

pub open spec fn conntrack_labels() -> Seq<&'static str> {
    seq!["router", "src_address", "protocol", "ip_version"]
}

pub open spec fn peer_labels() -> Seq<&'static str> {
    seq!["router", "interface", "allowed_address"]
}

pub open spec fn peer_info_labels() -> Seq<&'static str> {
    seq!["router", "interface", "allowed_address", "name", "endpoint"]
}

/// The counter families of a registry: the six interface counters, then the scrape
/// successes and errors.
pub open spec fn counters_of(reg: MetricsRegistry, c: Seq<CounterFamily>) -> bool {
    let ik = reg.interfaces.keys@;
    let iv = reg.interfaces.vals@;
    let sk = reg.scrape.keys@;
    &&& c.len() == 8
    &&& counter_family_is(c[0], "mikrotik_interface_rx_bytes"@, iface_labels(), ik, counter_col(iv, 0))
    &&& counter_family_is(c[1], "mikrotik_interface_tx_bytes"@, iface_labels(), ik, counter_col(iv, 1))
    &&& counter_family_is(c[2], "mikrotik_interface_rx_packets"@, iface_labels(), ik, counter_col(iv, 2))
    &&& counter_family_is(c[3], "mikrotik_interface_tx_packets"@, iface_labels(), ik, counter_col(iv, 3))
    &&& counter_family_is(c[4], "mikrotik_interface_rx_errors"@, iface_labels(), ik, counter_col(iv, 4))
    &&& counter_family_is(c[5], "mikrotik_interface_tx_errors"@, iface_labels(), ik, counter_col(iv, 5))
    &&& counter_family_is(c[6], "mikrotik_scrape_success"@, router_labels(), sk, scrape_count_col(reg.scrape.vals@, false))
    &&& counter_family_is(c[7], "mikrotik_scrape_errors"@, router_labels(), sk, scrape_count_col(reg.scrape.vals@, true))
}

/// The gauge families of a registry, in rendering order.
pub open spec fn gauges_of(reg: MetricsRegistry, g: Seq<GaugeFamily>) -> bool {
    let ik = reg.interfaces.keys@;
    let sysk = reg.system.keys@;
    let sysv = reg.system.vals@;
    let sk = reg.scrape.keys@;
    let sv = reg.scrape.vals@;
    &&& g.len() == 17
    &&& gauge_family_is(g[0], "mikrotik_interface_running"@, iface_labels(), ik, running_col(reg.interfaces.vals@))
    &&& gauge_family_is(g[1], "mikrotik_system_cpu_load"@, router_labels(), sysk, system_col(sysv, 0))
    &&& gauge_family_is(g[2], "mikrotik_system_free_memory_bytes"@, router_labels(), sysk, system_col(sysv, 1))
    &&& gauge_family_is(g[3], "mikrotik_system_total_memory_bytes"@, router_labels(), sysk, system_col(sysv, 2))
    &&& gauge_family_is(g[4], "mikrotik_system_info"@, info_labels(), reg.system_info.keys@, reg.system_info.vals@)
    &&& gauge_family_is(g[5], "mikrotik_system_uptime_seconds"@, router_labels(), sysk, system_col(sysv, 3))
    &&& gauge_present_is(g[6], "mikrotik_scrape_duration_milliseconds"@, router_labels(), sk, scrape_col(sv, 0))
    &&& gauge_present_is(g[7], "mikrotik_scrape_last_success_timestamp_seconds"@, router_labels(), sk, scrape_col(sv, 1))
    &&& gauge_present_is(g[8], "mikrotik_connection_consecutive_errors"@, router_labels(), sk, scrape_col(sv, 2))
    &&& gauge_single_is(g[9], "mikrotik_collection_cycle_duration_milliseconds"@, reg.collection_cycle_duration_ms)
    &&& gauge_single_is(g[10], "mikrotik_connection_pool_size"@, reg.pool_size)
    &&& gauge_single_is(g[11], "mikrotik_connection_pool_active"@, reg.pool_active)
    &&& gauge_family_is(g[12], "mikrotik_connection_tracking_count"@, conntrack_labels(), reg.conntrack.keys@, stamped_col(reg.conntrack.vals@))
    &&& gauge_family_is(g[13], "mikrotik_wireguard_peer_rx_bytes"@, peer_labels(), reg.peers.keys@, peer_col(reg.peers.vals@, 0))
    &&& gauge_family_is(g[14], "mikrotik_wireguard_peer_tx_bytes"@, peer_labels(), reg.peers.keys@, peer_col(reg.peers.vals@, 1))
    &&& gauge_family_is(g[15], "mikrotik_wireguard_peer_latest_handshake"@, peer_labels(), reg.peers.keys@, peer_col(reg.peers.vals@, 2))
    &&& gauge_family_is(g[16], "mikrotik_wireguard_peer_info"@, peer_info_labels(), reg.peer_info.keys@, stamped_col(reg.peer_info.vals@))
}

/// The text holds the lines of every family in `c` and `g` that has series.
pub open spec fn encodes(t: Seq<char>, c: Seq<CounterFamily>, g: Seq<GaugeFamily>) -> bool {
    &&& forall|i: int|
        0 <= i < c.len() && (#[trigger] c[i]).series@.len() > 0 ==> family_text(t, c[i].name@, c[i].help@, true)
    &&& forall|i: int|
        0 <= i < g.len() && (#[trigger] g[i]).series@.len() > 0 ==> family_text(t, g[i].name@, g[i].help@, false)
}

/// A fresh registry hands the encoder every family: the labelled ones without series,
/// and the cycle-duration, pool-size and pool-active gauges with one series at zero, so
/// that the rendered text holds the lines of those three families.
pub proof fn lemma_fresh_registry_families(
    reg: MetricsRegistry,
    c: Seq<CounterFamily>,
    g: Seq<GaugeFamily>,
    t: Seq<char>,
)
    requires
        reg.is_empty(),
        reg.collection_cycle_duration_ms == 0,
        reg.pool_size == 0,
        reg.pool_active == 0,
        counters_of(reg, c),
        gauges_of(reg, g),
    ensures
        forall|i: int| 0 <= i < 8 ==> (#[trigger] c[i]).series@.len() == 0,
        forall|i: int| 0 <= i < 17 && !(9 <= i < 12) ==> (#[trigger] g[i]).series@.len() == 0,
        g[9].name@ == "mikrotik_collection_cycle_duration_milliseconds"@,
        g[10].name@ == "mikrotik_connection_pool_size"@,
        g[11].name@ == "mikrotik_connection_pool_active"@,
        g[9].series@.len() == 1 && g[9].series@[0].1 == 0,
        g[10].series@.len() == 1 && g[10].series@[0].1 == 0,
        g[11].series@.len() == 1 && g[11].series@[0].1 == 0,
        encodes(t, c, g) ==> family_text(t, g[9].name@, g[9].help@, false) && family_text(
            t,
            g[10].name@,
            g[10].help@,
            false,
        ) && family_text(t, g[11].name@, g[11].help@, false),
{
    assert(series_view(g[6].series@).len() == 0);
    assert(series_view(g[7].series@).len() == 0);
    assert(series_view(g[8].series@).len() == 0);
}

impl MetricsRegistry {
    /// The registry's families as handed to the encoder, counters first: the interface
    /// counters and the scrape counts; then every gauge family.
    pub fn families(&self) -> (r: (Vec<CounterFamily>, Vec<GaugeFamily>))
        requires
            self.wf(),
        ensures
            counters_of(*self, r.0@),
            gauges_of(*self, r.1@),
    {
        let router: [&str; 1] = ["router"];
        let iface: [&str; 2] = ["router", "interface"];
        let info: [&str; 3] = ["router", "version", "board"];
        let ct: [&str; 4] = ["router", "src_address", "protocol", "ip_version"];
        let peer: [&str; 3] = ["router", "interface", "allowed_address"];
        let peer_info: [&str; 5] = ["router", "interface", "allowed_address", "name", "endpoint"];
        proof {
            assert(router@ =~= router_labels());
            assert(iface@ =~= iface_labels());
            assert(info@ =~= info_labels());
            assert(ct@ =~= conntrack_labels());
            assert(peer@ =~= peer_labels());
            assert(peer_info@ =~= peer_info_labels());
        }
        let mut counters: Vec<CounterFamily> = Vec::new();
        counters.push(counter_family("mikrotik_interface_rx_bytes", "Received bytes on interface", interface_column(&self.interfaces, &iface, 0)));
        counters.push(counter_family("mikrotik_interface_tx_bytes", "Transmitted bytes on interface", interface_column(&self.interfaces, &iface, 1)));
        counters.push(counter_family("mikrotik_interface_rx_packets", "Received packets on interface", interface_column(&self.interfaces, &iface, 2)));
        counters.push(counter_family("mikrotik_interface_tx_packets", "Transmitted packets on interface", interface_column(&self.interfaces, &iface, 3)));
        counters.push(counter_family("mikrotik_interface_rx_errors", "Receive errors on interface", interface_column(&self.interfaces, &iface, 4)));
        counters.push(counter_family("mikrotik_interface_tx_errors", "Transmit errors on interface", interface_column(&self.interfaces, &iface, 5)));
        counters.push(counter_family("mikrotik_scrape_success", "Successful scrape cycles per router", scrape_count_column(&self.scrape, &router, false)));
        counters.push(counter_family("mikrotik_scrape_errors", "Failed scrape cycles per router", scrape_count_column(&self.scrape, &router, true)));
        let mut gauges: Vec<GaugeFamily> = Vec::new();
        gauges.push(gauge_family("mikrotik_interface_running", "Interface running status (1=running,0=down)", running_column(&self.interfaces, &iface)));
        gauges.push(gauge_family("mikrotik_system_cpu_load", "CPU load percentage", system_column(&self.system, &router, 0)));
        gauges.push(gauge_family("mikrotik_system_free_memory_bytes", "Free memory bytes", system_column(&self.system, &router, 1)));
        gauges.push(gauge_family("mikrotik_system_total_memory_bytes", "Total memory bytes", system_column(&self.system, &router, 2)));
        gauges.push(gauge_family("mikrotik_system_info", "Static system info (value=1)", value_column(&self.system_info, &info)));
        gauges.push(gauge_family("mikrotik_system_uptime_seconds", "System uptime in seconds", system_column(&self.system, &router, 3)));
        gauges.push(gauge_family("mikrotik_scrape_duration_milliseconds", "Duration of last scrape in milliseconds", scrape_gauge_column(&self.scrape, &router, 0)));
        gauges.push(gauge_family("mikrotik_scrape_last_success_timestamp_seconds", "Unix timestamp of last successful scrape", scrape_gauge_column(&self.scrape, &router, 1)));
        gauges.push(gauge_family("mikrotik_connection_consecutive_errors", "Number of consecutive connection errors", scrape_gauge_column(&self.scrape, &router, 2)));
        gauges.push(gauge_family("mikrotik_collection_cycle_duration_milliseconds", "Duration of full collection cycle in milliseconds", single(self.collection_cycle_duration_ms)));
        gauges.push(gauge_family("mikrotik_connection_pool_size", "Total number of connections in pool", single(self.pool_size)));
        gauges.push(gauge_family("mikrotik_connection_pool_active", "Number of active connections in pool", single(self.pool_active)));
        gauges.push(gauge_family("mikrotik_connection_tracking_count", "Number of tracked connections per source address and protocol", stamped_column(&self.conntrack, &ct)));
        gauges.push(gauge_family("mikrotik_wireguard_peer_rx_bytes", "Bytes received from WireGuard peer", peer_column(&self.peers, &peer, 0)));
        gauges.push(gauge_family("mikrotik_wireguard_peer_tx_bytes", "Bytes transmitted to WireGuard peer", peer_column(&self.peers, &peer, 1)));
        gauges.push(gauge_family("mikrotik_wireguard_peer_latest_handshake", "Unix timestamp of last handshake with WireGuard peer", peer_column(&self.peers, &peer, 2)));
        gauges.push(gauge_family("mikrotik_wireguard_peer_info", "Static WireGuard peer info (value=1)", stamped_column(&self.peer_info, &peer_info)));
        (counters, gauges)
    }

    /// Renders every family of `families` in the text exposition format. The encoder
    /// always gives a text, and it holds the `# HELP` and `# TYPE` lines of every family
    /// that has series (and the `_total` samples of every such counter); the order of
    /// series within a family is the encoder's own.
    pub fn encode_metrics(&self) -> (r: Option<String>)
        requires
            self.wf(),
        ensures
            r is Some,
            r matches Some(t) ==> exists|c: Seq<CounterFamily>, g: Seq<GaugeFamily>|
                #![trigger counters_of(*self, c), gauges_of(*self, g)]
                counters_of(*self, c) && gauges_of(*self, g) && encodes(t@, c, g),
    {
        let (counters, gauges) = self.families();
        let mut registry = new_registry();
        let mut i: usize = 0;
        while i < counters.len()
            invariant
                i <= counters@.len(),
                registered_families(registry) == counters@.subrange(0, i as int).map_values(
                    |f: CounterFamily| (f.name@, f.help@, true, f.series@.len() > 0),
                ),
            decreases counters@.len() - i,
        {
            register_counters(&mut registry, &counters[i]);
            i += 1;
            assert(registered_families(registry) =~= counters@.subrange(0, i as int).map_values(
                |f: CounterFamily| (f.name@, f.help@, true, f.series@.len() > 0),
            ));
        }
        let ghost nc = counters@.len();
        let mut j: usize = 0;
        while j < gauges.len()
            invariant
                i == nc,
                nc == counters@.len(),
                j <= gauges@.len(),
                registered_families(registry) == counters@.map_values(
                    |f: CounterFamily| (f.name@, f.help@, true, f.series@.len() > 0),
                ) + gauges@.subrange(0, j as int).map_values(
                    |f: GaugeFamily| (f.name@, f.help@, false, f.series@.len() > 0),
                ),
            decreases gauges@.len() - j,
        {
            proof {
                if j == 0 {
                    assert(counters@.subrange(0, nc as int) =~= counters@);
                }
            }
            register_gauges(&mut registry, &gauges[j]);
            j += 1;
            assert(registered_families(registry) =~= counters@.map_values(
                |f: CounterFamily| (f.name@, f.help@, true, f.series@.len() > 0),
            ) + gauges@.subrange(0, j as int).map_values(
                |f: GaugeFamily| (f.name@, f.help@, false, f.series@.len() > 0),
            ));
        }
        proof {
            if gauges@.len() == 0 {
                assert(counters@.subrange(0, nc as int) =~= counters@);
            }
            assert(gauges@.subrange(0, j as int) =~= gauges@);
        }
        let r = encode_registry(&registry);
        proof {
            let t = r.unwrap();
            let fam = registered_families(registry);
            assert forall|k: int| 0 <= k < counters@.len() && (#[trigger] counters@[k]).series@.len() > 0 implies family_text(
                t@,
                counters@[k].name@,
                counters@[k].help@,
                true,
            ) by {
                assert(fam[k] == (counters@[k].name@, counters@[k].help@, true, true));
            }
            assert forall|k: int| 0 <= k < gauges@.len() && (#[trigger] gauges@[k]).series@.len() > 0 implies family_text(
                t@,
                gauges@[k].name@,
                gauges@[k].help@,
                false,
            ) by {
                assert(fam[nc + k] == (gauges@[k].name@, gauges@[k].help@, false, true));
            }
            assert(encodes(t@, counters@, gauges@));
        }
        r
    }
}

} // verus!
