//! WireGuard interfaces and peers from reply sentences. Peers are identified by their
//! allowed address, never by their public key.
use crate::duration::{parse_routeros_duration, routeros_duration};
use crate::parse::{number_of, rows_with, text_or};
use crate::sentence::Sentence;
use crate::text::{owned, parse_u64, parse_u64_spec, str_eq};
use crate::types::{WireGuardInterfaceStats, WireGuardPeerStats};
use vstd::prelude::*;

verus! {

/// An interface record read from a row: enabled unless `disabled` is `true`.
pub open spec fn wg_interface_matches(st: WireGuardInterfaceStats, row: Sentence) -> bool {
    &&& row.get_spec("name"@) == Some(st.name@)
    &&& st.enabled == (row.get_spec("disabled"@) != Some("true"@))
}

/// One record for each row that names an interface, in order.
pub fn parse_wireguard_interfaces(sentences: &[Sentence]) -> (r: Vec<WireGuardInterfaceStats>)
    ensures
        r@.len() == rows_with(sentences@, "name"@).len(),
        forall|i: int|
            0 <= i < r@.len() ==> wg_interface_matches(
                #[trigger] r@[i],
                rows_with(sentences@, "name"@)[i],
            ),
{
    let mut out: Vec<WireGuardInterfaceStats> = Vec::new();
    let mut i: usize = 0;
    while i < sentences.len()
        invariant
            i <= sentences@.len(),
            out@.len() == rows_with(sentences@.subrange(0, i as int), "name"@).len(),
            forall|j: int|
                0 <= j < out@.len() ==> wg_interface_matches(
                    #[trigger] out@[j],
                    rows_with(sentences@.subrange(0, i as int), "name"@)[j],
                ),
        decreases sentences@.len() - i,
    {
        let row = &sentences[i];
        assert(sentences@.subrange(0, i + 1).drop_last() =~= sentences@.subrange(0, i as int));
        match row.get("name") {
            Some(name) => {
                let disabled = match row.get("disabled") {
                    Some(v) => str_eq(v.as_str(), "true"),
                    None => false,
                };
                out.push(WireGuardInterfaceStats { name: name.clone(), enabled: !disabled });
            },
            None => {},
        }
        i += 1;
    }
    assert(sentences@.subrange(0, sentences@.len() as int) =~= sentences@);
    out
}

/// The value of the first of `names` that the row assigns.
pub open spec fn first_field(row: Sentence, names: Seq<&str>) -> Option<Seq<char>>
    decreases names.len(),
{
    if names.len() == 0 {
        None
    } else {
        match row.get_spec(names[0]@) {
            Some(v) => Some(v),
            None => first_field(row, names.drop_first()),
        }
    }
}

/// The value of the first of `possible_names` that `fields` assigns, so that a field
/// renamed between firmware generations is read under either name.
pub fn get_field_value(fields: &Sentence, possible_names: &[&str]) -> (r: Option<String>)
    ensures
        r matches Some(v) ==> first_field(*fields, possible_names@) == Some(v@),
        r is None <==> first_field(*fields, possible_names@) is None,
{
    let mut i: usize = 0;
    assert(possible_names@.subrange(0, possible_names@.len() as int) =~= possible_names@);
    while i < possible_names.len()
        invariant
            i <= possible_names@.len(),
            first_field(*fields, possible_names@) == first_field(
                *fields,
                possible_names@.subrange(i as int, possible_names@.len() as int),
            ),
        decreases possible_names@.len() - i,
    {
        let ghost rest = possible_names@.subrange(i as int, possible_names@.len() as int);
        assert(rest.drop_first() =~= possible_names@.subrange(
            i + 1,
            possible_names@.len() as int,
        ));
        match fields.get(possible_names[i]) {
            Some(v) => {
                return Some(v.clone());
            },
            None => {},
        }
        i += 1;
    }
    None
}

/// Age in seconds of a handshake field: a plain number of seconds, or a duration.
pub open spec fn handshake_age(s: Seq<char>) -> u64 {
    match parse_u64_spec(s) {
        Some(v) => v,
        None => routeros_duration(s),
    }
}

/// Unix time of a handshake that happened `s` ago, seen at Unix time `now`; none for an
/// empty field or `never`.
pub open spec fn handshake_time(s: Seq<char>, now: u64) -> Option<u64> {
    if s.len() == 0 || s == "never"@ {
        None
    } else if now >= handshake_age(s) {
        Some((now - handshake_age(s)) as u64)
    } else {
        Some(0)
    }
}

/// Turns the age of the latest handshake (`7s`, `1w4d9h15m7s`, `120`, `never`) into the
/// Unix time at which it happened, given the Unix time `now`.
pub fn parse_handshake_to_timestamp(handshake_str: &str, now: u64) -> (r: Option<u64>)
    ensures
        r == handshake_time(handshake_str@, now),
{
    if handshake_str.is_empty() || str_eq(handshake_str, "never") {
        return None;
    }
    let age = match parse_u64(handshake_str) {
        Some(seconds) => seconds,
        None => match parse_routeros_duration(handshake_str) {
            Some(v) => v,
            None => 0,
        },
    };
    Some(now.saturating_sub(age))
}

/// The rows that describe a peer: those with an interface and an allowed address.
pub open spec fn peer_rows(rows: Seq<Sentence>) -> Seq<Sentence>
    decreases rows.len(),
{
    if rows.len() == 0 {
        Seq::empty()
    } else {
        let p = peer_rows(rows.drop_last());
        if rows.last().get_spec("interface"@) is Some && rows.last().get_spec(
            "allowed-address"@,
        ) is Some {
            p.push(rows.last())
        } else {
            p
        }
    }
}

pub open spec fn opt_view(o: Option<String>) -> Option<Seq<char>> {
    match o {
        Some(s) => Some(s@),
        None => None,
    }
}

/// The handshake field of a row, under its current name or its older one.
pub open spec fn handshake_field(row: Sentence) -> Option<Seq<char>> {
    match row.get_spec("last-handshake"@) {
        Some(v) => Some(v),
        None => row.get_spec("latest-handshake"@),
    }
}

/// A peer record read from a row at Unix time `now`.
pub open spec fn peer_matches(p: WireGuardPeerStats, row: Sentence, now: u64) -> bool {
    &&& row.get_spec("interface"@) == Some(p.interface@)
    &&& row.get_spec("allowed-address"@) == Some(p.allowed_address@)
    &&& p.name@ == text_or(row.get_spec("name"@), "unnamed-peer"@)
    &&& opt_view(p.endpoint) == row.get_spec("endpoint"@)
    &&& p.rx_bytes == number_of(row.get_spec("rx"@))
    &&& p.tx_bytes == number_of(row.get_spec("tx"@))
    &&& p.latest_handshake == match handshake_field(row) {
        Some(v) => handshake_time(v, now),
        None => None,
    }
}

fn number_field(row: &Sentence, key: &str) -> (r: u64)
    ensures
        r == number_of(row.get_spec(key@)),
{
    match row.get(key) {
        Some(v) => match parse_u64(v.as_str()) {
            Some(n) => n,
            None => 0,
        },
        None => 0,
    }
}

fn handshake_of(row: &Sentence) -> (r: Option<String>)
    ensures
        opt_view(r) == handshake_field(*row),
{
    let names: [&str; 2] = ["last-handshake", "latest-handshake"];
    proof {
        let n = names@;
        assert(n.len() == 2);
        assert(n[0] == "last-handshake");
        assert(n[1] == "latest-handshake");
        let rest = n.drop_first();
        assert(rest[0] == "latest-handshake");
        assert(rest.drop_first().len() == 0);
        assert(first_field(*row, rest.drop_first()) is None);
        assert(first_field(*row, rest) == row.get_spec("latest-handshake"@));
        assert(first_field(*row, n) == handshake_field(*row));
    }
    get_field_value(row, &names)
}

/// One peer record for each row with an interface and an allowed address, in order;
/// handshake ages are turned into Unix times against `now`.
pub fn parse_wireguard_peers(sentences: &[Sentence], now: u64) -> (r: Vec<WireGuardPeerStats>)
    ensures
        r@.len() == peer_rows(sentences@).len(),
        forall|i: int| 0 <= i < r@.len() ==> peer_matches(#[trigger] r@[i], peer_rows(sentences@)[i], now),
{
    let mut out: Vec<WireGuardPeerStats> = Vec::new();
    let mut i: usize = 0;
    while i < sentences.len()
        invariant
            i <= sentences@.len(),
            out@.len() == peer_rows(sentences@.subrange(0, i as int)).len(),
            forall|j: int|
                0 <= j < out@.len() ==> peer_matches(
                    #[trigger] out@[j],
                    peer_rows(sentences@.subrange(0, i as int))[j],
                    now,
                ),
        decreases sentences@.len() - i,
    {
        let row = &sentences[i];
        assert(sentences@.subrange(0, i + 1).drop_last() =~= sentences@.subrange(0, i as int));
        match row.get("interface") {
            Some(interface) => match row.get("allowed-address") {
                Some(allowed) => {
                    let latest_handshake = match handshake_of(row) {
                        Some(v) => parse_handshake_to_timestamp(v.as_str(), now),
                        None => None,
                    };
                    let name = match row.get("name") {
                        Some(n) => n.clone(),
                        None => owned("unnamed-peer"),
                    };
                    let endpoint = match row.get("endpoint") {
                        Some(e) => Some(e.clone()),
                        None => None,
                    };
                    out.push(
                        WireGuardPeerStats {
                            interface: interface.clone(),
                            name,
                            allowed_address: allowed.clone(),
                            endpoint,
                            rx_bytes: number_field(row, "rx"),
                            tx_bytes: number_field(row, "tx"),
                            latest_handshake,
                        },
                    );
                },
                None => {},
            },
            None => {},
        }
        i += 1;
    }
    assert(sentences@.subrange(0, sentences@.len() as int) =~= sentences@);
    out
}

} // verus!
