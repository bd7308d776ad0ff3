//! Typed records from reply sentences: system resources, interfaces and connection
//! tracking. A field that is missing or not a number reads as its default.
use crate::duration::number_or_zero;
use crate::sentence::{row_get, Sentence};
use crate::text::{chars_of, find_char, owned, parse_u64, str_eq, substring};
use crate::types::{ConnectionTrackingStats, InterfaceStats, SystemResource};
use vstd::prelude::*;

verus! {

/// A text field, or `default` where it is missing.
pub open spec fn text_or(v: Option<Seq<char>>, default: Seq<char>) -> Seq<char> {
    match v {
        Some(x) => x,
        None => default,
    }
}

/// A numeric field: its value where it reads as a number, else zero.
pub open spec fn number_of(v: Option<Seq<char>>) -> u64 {
    match v {
        Some(x) => number_or_zero(x),
        None => 0,
    }
}

/// Index of the first row that assigns `key`.
pub open spec fn first_row_with(rows: Seq<Sentence>, key: Seq<char>) -> Option<int>
    decreases rows.len(),
{
    if rows.len() == 0 {
        None
    } else if rows[0].get_spec(key) is Some {
        Some(0)
    } else {
        match first_row_with(rows.drop_first(), key) {
            Some(i) => Some(i + 1),
            None => None,
        }
    }
}

/// The rows that assign `key`, in order.
pub open spec fn rows_with(rows: Seq<Sentence>, key: Seq<char>) -> Seq<Sentence>
    decreases rows.len(),
{
    if rows.len() == 0 {
        Seq::empty()
    } else {
        let p = rows_with(rows.drop_last(), key);
        if rows.last().get_spec(key) is Some {
            p.push(rows.last())
        } else {
            p
        }
    }
}

pub proof fn lemma_first_row_with(rows: Seq<Sentence>, key: Seq<char>, i: int)
    requires
        0 <= i <= rows.len(),
        forall|j: int| 0 <= j < i ==> (#[trigger] rows[j]).get_spec(key) is None,
    ensures
        i < rows.len() && rows[i].get_spec(key) is Some ==> first_row_with(rows, key) == Some(i),
        i == rows.len() ==> first_row_with(rows, key) is None,
    decreases i,
{
    if i > 0 {
        let t = rows.drop_first();
        assert forall|j: int| 0 <= j < i - 1 implies (#[trigger] t[j]).get_spec(key) is None by {
            assert(t[j] == rows[j + 1]);
        }
        lemma_first_row_with(t, key, i - 1);
        assert(rows[0].get_spec(key) is None);
        if i < rows.len() {
            assert(t[i - 1] == rows[i]);
        }
    }
}

/// The row from which system resources are read: the first that carries a version.
pub open spec fn system_row(rows: Seq<Sentence>) -> Option<Sentence> {
    match first_row_with(rows, "version"@) {
        Some(i) => Some(rows[i]),
        None => None,
    }
}

fn find_row_with(rows: &[Sentence], key: &str) -> (r: Option<usize>)
    ensures
        r matches Some(i) ==> first_row_with(rows@, key@) == Some(i as int) && i < rows@.len(),
        r is None ==> first_row_with(rows@, key@) is None,
{
    let mut i: usize = 0;
    while i < rows.len()
        invariant
            i <= rows@.len(),
            forall|j: int| 0 <= j < i ==> (#[trigger] rows@[j]).get_spec(key@) is None,
        decreases rows@.len() - i,
    {
        if rows[i].contains_key(key) {
            proof {
                lemma_first_row_with(rows@, key@, i as int);
            }
            return Some(i);
        }
        i += 1;
    }
    proof {
        lemma_first_row_with(rows@, key@, i as int);
    }
    None
}

fn text_field(row: &Sentence, key: &str, default: &str) -> (r: String)
    ensures
        r@ == text_or(row.get_spec(key@), default@),
{
    match row.get(key) {
        Some(v) => v.clone(),
        None => owned(default),
    }
}

fn number_field(row: &Sentence, key: &str) -> (r: u64)
    ensures
        r == number_of(row.get_spec(key@)),
{
    match row.get(key) {
        Some(v) => match parse_u64(v.as_str()) {
            Some(n) => n,
            None => 0,
        },
        None => 0,
    }
}

fn system_from(row: &Sentence) -> (r: SystemResource)
    ensures
        r.uptime@ == text_or(row.get_spec("uptime"@), "0s"@),
        r.cpu_load == number_of(row.get_spec("cpu-load"@)),
        r.free_memory == number_of(row.get_spec("free-memory"@)),
        r.total_memory == number_of(row.get_spec("total-memory"@)),
        r.version@ == text_or(row.get_spec("version"@), "unknown"@),
        r.board_name@ == text_or(row.get_spec("board-name"@), "unknown"@),
{
    SystemResource {
        uptime: text_field(row, "uptime", "0s"),
        cpu_load: number_field(row, "cpu-load"),
        free_memory: number_field(row, "free-memory"),
        total_memory: number_field(row, "total-memory"),
        version: text_field(row, "version", "unknown"),
        board_name: text_field(row, "board-name", "unknown"),
    }
}

/// Reads system resources from the first row that carries a version; every field that
/// is missing takes its default (`0s`, zero, `unknown`).
pub fn parse_system(sentences: &[Sentence]) -> (r: SystemResource)
    ensures
        r.uptime@ == text_or(row_get(system_row(sentences@), "uptime"@), "0s"@),
        r.cpu_load == number_of(row_get(system_row(sentences@), "cpu-load"@)),
        r.free_memory == number_of(row_get(system_row(sentences@), "free-memory"@)),
        r.total_memory == number_of(row_get(system_row(sentences@), "total-memory"@)),
        r.version@ == text_or(row_get(system_row(sentences@), "version"@), "unknown"@),
        r.board_name@ == text_or(row_get(system_row(sentences@), "board-name"@), "unknown"@),
{
    match find_row_with(sentences, "version") {
        Some(i) => system_from(&sentences[i]),
        None => {
            let empty = Sentence::new();
            system_from(&empty)
        },
    }
}

/// An interface record read from a row.
pub open spec fn interface_matches(st: InterfaceStats, row: Sentence) -> bool {
    &&& row.get_spec("name"@) == Some(st.name@)
    &&& st.rx_bytes == number_of(row.get_spec("rx-byte"@))
    &&& st.tx_bytes == number_of(row.get_spec("tx-byte"@))
    &&& st.rx_packets == number_of(row.get_spec("rx-packet"@))
    &&& st.tx_packets == number_of(row.get_spec("tx-packet"@))
    &&& st.rx_errors == number_of(row.get_spec("rx-error"@))
    &&& st.tx_errors == number_of(row.get_spec("tx-error"@))
    &&& st.running == (row.get_spec("running"@) == Some("true"@))
}

fn flag_field(row: &Sentence, key: &str, expected: &str) -> (r: bool)
    ensures
        r == (row.get_spec(key@) == Some(expected@)),
{
    match row.get(key) {
        Some(v) => str_eq(v.as_str(), expected),
        None => false,
    }
}

/// One interface record for each row that names an interface, in order.
pub fn parse_interfaces(sentences: &[Sentence]) -> (r: Vec<InterfaceStats>)
    ensures
        r@.len() == rows_with(sentences@, "name"@).len(),
        forall|i: int|
            0 <= i < r@.len() ==> interface_matches(
                #[trigger] r@[i],
                rows_with(sentences@, "name"@)[i],
            ),
{
    let mut out: Vec<InterfaceStats> = Vec::new();
    let mut i: usize = 0;
    while i < sentences.len()
        invariant
            i <= sentences@.len(),
            out@.len() == rows_with(sentences@.subrange(0, i as int), "name"@).len(),
            forall|j: int|
                0 <= j < out@.len() ==> interface_matches(
                    #[trigger] out@[j],
                    rows_with(sentences@.subrange(0, i as int), "name"@)[j],
                ),
        decreases sentences@.len() - i,
    {
        let row = &sentences[i];
        assert(sentences@.subrange(0, i + 1).drop_last() =~= sentences@.subrange(0, i as int));
        match row.get("name") {
            Some(name) => {
                let st = InterfaceStats {
                    name: name.clone(),
                    rx_bytes: number_field(row, "rx-byte"),
                    tx_bytes: number_field(row, "tx-byte"),
                    rx_packets: number_field(row, "rx-packet"),
                    tx_packets: number_field(row, "tx-packet"),
                    rx_errors: number_field(row, "rx-error"),
                    tx_errors: number_field(row, "tx-error"),
                    running: flag_field(row, "running", "true"),
                };
                out.push(st);
            },
            None => {},
        }
        i += 1;
    }
    assert(sentences@.subrange(0, sentences@.len() as int) =~= sentences@);
    out
}

/// Number of occurrences of `c` in `s`.
pub open spec fn count_char(s: Seq<char>, c: char) -> nat
    decreases s.len(),
{
    if s.len() == 0 {
        0
    } else {
        count_char(s.drop_last(), c) + if s.last() == c {
            1nat
        } else {
            0nat
        }
    }
}

/// The characters of `s` before the first `c` (all of `s` where there is none).
pub open spec fn before_first(s: Seq<char>, c: char) -> Seq<char>
    decreases s.len(),
{
    if s.len() == 0 {
        s
    } else if s[0] == c {
        Seq::empty()
    } else {
        seq![s[0]] + before_first(s.drop_first(), c)
    }
}

/// The address in a connection-tracking source: `[v6]:port` gives what stands between
/// the brackets, `ip:port` (a single colon) what stands before the colon, and anything
/// else, a bare address, is kept whole.
pub open spec fn src_ip(s: Seq<char>) -> Seq<char> {
    if s.len() > 0 && s[0] == '[' && count_char(s.drop_first(), ']') > 0 {
        before_first(s.drop_first(), ']')
    } else if count_char(s, ':') == 1 {
        before_first(s, ':')
    } else {
        s
    }
}

pub proof fn lemma_before_first(s: Seq<char>, c: char, i: int)
    requires
        0 <= i <= s.len(),
        forall|j: int| 0 <= j < i ==> s[j] != c,
        i < s.len() ==> s[i] == c,
    ensures
        before_first(s, c) == s.subrange(0, i),
    decreases i,
{
    if i == 0 {
        if s.len() == 0 {
            assert(s.subrange(0, 0) =~= s);
        } else {
            assert(s.subrange(0, 0) =~= Seq::<char>::empty());
        }
    } else {
        let t = s.drop_first();
        assert forall|j: int| 0 <= j < i - 1 implies t[j] != c by {
            assert(t[j] == s[j + 1]);
        }
        if i < s.len() {
            assert(t[i - 1] == s[i]);
        }
        lemma_before_first(t, c, i - 1);
        assert(seq![s[0]] + t.subrange(0, i - 1) =~= s.subrange(0, i));
    }
}

pub proof fn lemma_count_absent(s: Seq<char>, c: char)
    requires
        forall|j: int| 0 <= j < s.len() ==> s[j] != c,
    ensures
        count_char(s, c) == 0,
    decreases s.len(),
{
    if s.len() > 0 {
        lemma_count_absent(s.drop_last(), c);
    }
}

fn count_exec(s: &[char], c: char) -> (r: usize)
    ensures
        r == count_char(s@, c),
{
    let mut n: usize = 0;
    let mut i: usize = 0;
    while i < s.len()
        invariant
            i <= s@.len(),
            n == count_char(s@.subrange(0, i as int), c),
            n <= i,
        decreases s@.len() - i,
    {
        assert(s@.subrange(0, i + 1).drop_last() =~= s@.subrange(0, i as int));
        if s[i] == c {
            n += 1;
        }
        i += 1;
    }
    assert(s@.subrange(0, s@.len() as int) =~= s@);
    n
}

/// The address of a connection-tracking source, without its port.
pub fn extract_src_ip(src: &str) -> (r: String)
    ensures
        r@ == src_ip(src@),
{
    let cs = chars_of(src);
    if cs.len() > 0 && cs[0] == '[' {
        let rest = cs.as_slice().split_at(1).1;
        assert(rest@ =~= src@.drop_first());
        match find_char(rest, ']') {
            Some(j) => {
                proof {
                    lemma_before_first(rest@, ']', j as int);
                    assert(count_char(rest@, ']') > 0) by {
                        if count_char(rest@, ']') == 0 {
                            lemma_count_present(rest@, ']', j as int);
                        }
                    }
                }
                return substring(src, 1, j + 1);
            },
            None => {
                proof {
                    lemma_count_absent(rest@, ']');
                }
            },
        }
    }
    if count_exec(cs.as_slice(), ':') == 1 {
        match find_char(cs.as_slice(), ':') {
            Some(j) => {
                proof {
                    lemma_before_first(src@, ':', j as int);
                }
                return substring(src, 0, j);
            },
            None => {
                proof {
                    lemma_count_absent(src@, ':');
                }
                return owned(src);
            },
        }
    }
    owned(src)
}

pub proof fn lemma_count_present(s: Seq<char>, c: char, j: int)
    requires
        0 <= j < s.len(),
        s[j] == c,
    ensures
        count_char(s, c) > 0,
    decreases s.len(),
{
    if j < s.len() - 1 {
        assert(s.drop_last()[j] == c);
        lemma_count_present(s.drop_last(), c, j);
    }
}

/// The aggregation key of a connection-tracking row: source address and protocol.
pub open spec fn conn_keys(rows: Seq<Sentence>) -> Seq<(Seq<char>, Seq<char>)>
    decreases rows.len(),
{
    if rows.len() == 0 {
        Seq::empty()
    } else {
        let p = conn_keys(rows.drop_last());
        match rows.last().get_spec("src-address"@) {
            Some(src) => p.push(
                (src_ip(src), text_or(rows.last().get_spec("protocol"@), "unknown"@)),
            ),
            None => p,
        }
    }
}

/// Number of occurrences of `k` among `keys`.
pub open spec fn key_count(keys: Seq<(Seq<char>, Seq<char>)>, k: (Seq<char>, Seq<char>)) -> nat
    decreases keys.len(),
{
    if keys.len() == 0 {
        0
    } else {
        key_count(keys.drop_last(), k) + if keys.last() == k {
            1nat
        } else {
            0nat
        }
    }
}

pub open spec fn key_view(k: (String, String)) -> (Seq<char>, Seq<char>) {
    (k.0@, k.1@)
}

pub open spec fn conn_view(c: ConnectionTrackingStats) -> (Seq<char>, Seq<char>) {
    (c.src_address@, c.protocol@)
}

proof fn lemma_key_count_bound(keys: Seq<(Seq<char>, Seq<char>)>, k: (Seq<char>, Seq<char>))
    ensures
        key_count(keys, k) <= keys.len(),
    decreases keys.len(),
{
    if keys.len() > 0 {
        lemma_key_count_bound(keys.drop_last(), k);
    }
}

proof fn lemma_conn_keys_len(rows: Seq<Sentence>)
    ensures
        conn_keys(rows).len() <= rows.len(),
    decreases rows.len(),
{
    if rows.len() > 0 {
        lemma_conn_keys_len(rows.drop_last());
    }
}

fn find_key(keys: &Vec<(String, String)>, src: &String, proto: &String) -> (r: Option<usize>)
    ensures
        r matches Some(j) ==> j < keys@.len() && key_view(keys@[j as int]) == (src@, proto@),
        r is None ==> forall|j: int|
            0 <= j < keys@.len() ==> key_view(#[trigger] keys@[j]) != (src@, proto@),
{
    let mut j: usize = 0;
    while j < keys.len()
        invariant
            j <= keys@.len(),
            forall|a: int| 0 <= a < j ==> key_view(#[trigger] keys@[a]) != (src@, proto@),
        decreases keys@.len() - j,
    {
        if keys[j].0 == *src && keys[j].1 == *proto {
            return Some(j);
        }
        j += 1;
    }
    None
}

/// `r` counts the tracked connections of `rows` per source address and protocol: each
/// pair that occurs is listed once with its count, all with IP version `ip_version`.
pub open spec fn conntrack_parsed(
    rows: Seq<Sentence>,
    ip_version: Seq<char>,
    r: Seq<ConnectionTrackingStats>,
) -> bool {
    &&& forall|i: int| 0 <= i < r.len() ==> (#[trigger] r[i]).ip_version@ == ip_version
    &&& forall|i: int|
        0 <= i < r.len() ==> (#[trigger] r[i]).connection_count == key_count(conn_keys(rows), conn_view(r[i]))
            && r[i].connection_count >= 1
    &&& forall|i: int, j: int| 0 <= i < j < r.len() ==> conn_view(#[trigger] r[i]) != conn_view(#[trigger] r[j])
    &&& forall|k: (Seq<char>, Seq<char>)|
        key_count(conn_keys(rows), k) > 0 ==> exists|i: int| 0 <= i < r.len() && conn_view(#[trigger] r[i]) == k
}

/// Counts tracked connections per source address (port stripped) and protocol
/// (`unknown` where missing), over the rows that carry a source address; each pair is
/// listed once, in order of first appearance, with the IP version given.
pub fn parse_connection_tracking(sentences: &[Sentence], ip_version: &str) -> (r: Vec<
    ConnectionTrackingStats,
>)
    ensures
        conntrack_parsed(sentences@, ip_version@, r@),
{
    let mut keys: Vec<(String, String)> = Vec::new();
    let mut counts: Vec<u64> = Vec::new();
    let mut i: usize = 0;
    while i < sentences.len()
        invariant
            i <= sentences@.len(),
            keys@.len() == counts@.len(),
            forall|a: int|
                0 <= a < counts@.len() ==> #[trigger] counts@[a] == key_count(
                    conn_keys(sentences@.subrange(0, i as int)),
                    key_view(keys@[a]),
                ) && counts@[a] >= 1,
            forall|a: int, b: int|
                0 <= a < b < keys@.len() ==> key_view(#[trigger] keys@[a]) != key_view(
                    #[trigger] keys@[b],
                ),
            forall|k: (Seq<char>, Seq<char>)|
                key_count(conn_keys(sentences@.subrange(0, i as int)), k) > 0 ==> exists|a: int|
                    0 <= a < keys@.len() && key_view(#[trigger] keys@[a]) == k,
        decreases sentences@.len() - i,
    {
        let row = &sentences[i];
        let ghost pre = sentences@.subrange(0, i as int);
        let ghost next = sentences@.subrange(0, i + 1);
        assert(next.drop_last() =~= pre);
        assert(next.last() == *row);
        match row.get("src-address") {
            Some(src) => {
                let ip = extract_src_ip(src.as_str());
                let proto = text_field(row, "protocol", "unknown");
                let ghost k = (ip@, proto@);
                assert(conn_keys(next) == conn_keys(pre).push(k));
                assert(conn_keys(next).drop_last() =~= conn_keys(pre));
                proof {
                    lemma_conn_keys_len(pre);
                    lemma_key_count_bound(conn_keys(pre), k);
                }
                let ghost old_keys = keys@;
                match find_key(&keys, &ip, &proto) {
                    Some(j) => {
                        let c = counts[j];
                        proof {
                            assert(c <= i) by {
                                lemma_key_count_bound(conn_keys(pre), key_view(keys@[j as int]));
                            }
                        }
                        counts.set(j, c + 1);
                    },
                    None => {
                        proof {
                            assert(key_count(conn_keys(pre), k) == 0);
                        }
                        keys.push((ip, proto));
                        counts.push(1);
                        proof {
                            assert(key_view(keys@[keys@.len() - 1]) == k);
                        }
                    },
                }
                proof {
                    assert(keys@.len() >= old_keys.len());
                    assert(forall|a: int| 0 <= a < old_keys.len() ==> keys@[a] == old_keys[a]);
                    assert forall|kk: (Seq<char>, Seq<char>)|
                        key_count(conn_keys(next), kk) > 0 implies exists|a: int|
                            0 <= a < keys@.len() && key_view(#[trigger] keys@[a]) == kk by {
                        if kk != k {
                            assert(key_count(conn_keys(pre), kk) > 0);
                            let a = choose|a: int|
                                0 <= a < old_keys.len() && key_view(#[trigger] old_keys[a]) == kk;
                            assert(key_view(keys@[a]) == kk);
                        } else {
                            let a = choose|a: int|
                                0 <= a < keys@.len() && key_view(#[trigger] keys@[a]) == k;
                        }
                    }
                }
            },
            None => {
                assert(conn_keys(next) == conn_keys(pre));
            },
        }
        i += 1;
    }
    assert(sentences@.subrange(0, sentences@.len() as int) =~= sentences@);
    let mut out: Vec<ConnectionTrackingStats> = Vec::new();
    let mut j: usize = 0;
    while j < keys.len()
        invariant
            j <= keys@.len(),
            keys@.len() == counts@.len(),
            out@.len() == j,
            forall|a: int|
                0 <= a < j ==> conn_view(#[trigger] out@[a]) == key_view(keys@[a]) && out@[a].connection_count
                    == counts@[a] && out@[a].ip_version@ == ip_version@,
        decreases keys@.len() - j,
    {
        out.push(
            ConnectionTrackingStats {
                src_address: keys[j].0.clone(),
                protocol: keys[j].1.clone(),
                connection_count: counts[j],
                ip_version: owned(ip_version),
            },
        );
        j += 1;
    }
    proof {
        assert forall|k: (Seq<char>, Seq<char>)|
            key_count(conn_keys(sentences@), k) > 0 implies exists|i: int|
                0 <= i < out@.len() && conn_view(#[trigger] out@[i]) == k by {
            let a = choose|a: int| 0 <= a < keys@.len() && key_view(#[trigger] keys@[a]) == k;
            assert(conn_view(out@[a]) == k);
        }
        assert forall|a: int, b: int| 0 <= a < b < out@.len() implies conn_view(
            #[trigger] out@[a],
        ) != conn_view(#[trigger] out@[b]) by {
            assert(key_view(keys@[a]) != key_view(keys@[b]));
        }
    }
    out
}

} // verus!
