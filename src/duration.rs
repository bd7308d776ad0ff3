//! Durations as the device writes them: `1w4d9h15m7s`, `HH:MM:SS`, `MM:SS`, plain
//! seconds.
use crate::text::{
    all_digits, chars_of, contains_spec, digit_value, is_digit, parse_u64_chars, parse_u64_spec,
    sat_add, sat_mul, saturating_mul,
};
use vstd::prelude::*;

verus! {

/// Seconds in one unit of a duration suffix.
pub open spec fn unit_seconds(c: char) -> Option<u64> {
    if c == 's' {
        Some(1)
    } else if c == 'm' {
        Some(60)
    } else if c == 'h' {
        Some(3600)
    } else if c == 'd' {
        Some(86400)
    } else if c == 'w' {
        Some(604800)
    } else {
        None
    }
}

fn unit_of(c: char) -> (r: Option<u64>)
    ensures
        r == unit_seconds(c),
{
    if c == 's' {
        Some(1)
    } else if c == 'm' {
        Some(60)
    } else if c == 'h' {
        Some(3600)
    } else if c == 'd' {
        Some(86400)
    } else if c == 'w' {
        Some(604800)
    } else {
        None
    }
}

/// Scan of a duration string: the seconds so far and the pending number, or `None`
/// once a number no longer fits in 64 bits.
pub open spec fn duration_scan(s: Seq<char>) -> Option<(u64, u64)>
    decreases s.len(),
{
    if s.len() == 0 {
        Some((0, 0))
    } else {
        match duration_scan(s.drop_last()) {
            None => None,
            Some((total, cur)) => {
                let c = s.last();
                if is_digit(c) {
                    if cur * 10 + digit_value(c) <= u64::MAX {
                        Some((total, (cur * 10 + digit_value(c)) as u64))
                    } else {
                        None
                    }
                } else {
                    match unit_seconds(c) {
                        Some(u) => Some((sat_add(total, sat_mul(cur, u)), 0)),
                        None => Some((total, cur)),
                    }
                }
            },
        }
    }
}

/// Seconds in a duration such as `1w4d9h15m7s`: each number times its unit, summed
/// with saturation; other characters are skipped, a number without unit counts nothing,
/// and a number too large for 64 bits gives `u64::MAX`.
pub open spec fn routeros_duration(s: Seq<char>) -> u64 {
    match duration_scan(s) {
        None => u64::MAX,
        Some((total, _)) => total,
    }
}

/// Reads a duration such as `1w4d9h15m7s` into seconds.
pub fn parse_routeros_duration(duration_str: &str) -> (r: Option<u64>)
    ensures
        r == Some(routeros_duration(duration_str@)),
{
    let cs = chars_of(duration_str);
    let mut total: u64 = 0;
    let mut cur: u64 = 0;
    let mut i: usize = 0;
    while i < cs.len()
        invariant
            cs@ == duration_str@,
            i <= cs@.len(),
            duration_scan(cs@.subrange(0, i as int)) == Some((total, cur)),
        decreases cs@.len() - i,
    {
        let c = cs[i];
        let ghost pre = cs@.subrange(0, i as int);
        assert(cs@.subrange(0, i + 1).drop_last() =~= pre);
        if '0' <= c && c <= '9' {
            let dv = (c as u32 - '0' as u32) as u64;
            match cur.checked_mul(10) {
                Some(t) => match t.checked_add(dv) {
                    Some(v) => {
                        cur = v;
                    },
                    None => {
                        proof {
                            lemma_scan_overflow_sticks(cs@, i as int + 1);
                        }
                        return Some(u64::MAX);
                    },
                },
                None => {
                    proof {
                        lemma_scan_overflow_sticks(cs@, i as int + 1);
                    }
                    return Some(u64::MAX);
                },
            }
        } else {
            match unit_of(c) {
                Some(u) => {
                    total = total.saturating_add(saturating_mul(cur, u));
                    cur = 0;
                },
                None => {},
            }
        }
        i += 1;
    }
    assert(cs@.subrange(0, cs@.len() as int) =~= cs@);
    Some(total)
}

/// Once the scan of a prefix overflowed, the scan of the whole string has too.
pub proof fn lemma_scan_overflow_sticks(s: Seq<char>, k: int)
    requires
        0 <= k <= s.len(),
        duration_scan(s.subrange(0, k)) is None,
    ensures
        duration_scan(s) is None,
    decreases s.len() - k,
{
    if k < s.len() {
        assert(s.subrange(0, k + 1).drop_last() =~= s.subrange(0, k));
        lemma_scan_overflow_sticks(s, k + 1);
    } else {
        assert(s.subrange(0, k) =~= s);
    }
}

/// Parts of `s` between the occurrences of `sep`.
pub open spec fn split_on(s: Seq<char>, sep: char) -> Seq<Seq<char>>
    decreases s.len(),
{
    if s.len() == 0 {
        seq![Seq::empty()]
    } else {
        let p = split_on(s.drop_last(), sep);
        if s.last() == sep {
            p.push(Seq::empty())
        } else {
            p.update(p.len() - 1, p.last().push(s.last()))
        }
    }
}

/// A number read as `u64::from_str` reads it, or zero where it cannot be read.
pub open spec fn number_or_zero(s: Seq<char>) -> u64 {
    match parse_u64_spec(s) {
        Some(v) => v,
        None => 0,
    }
}

/// Scan of the unit form of an uptime: the seconds so far and the digits pending.
pub open spec fn uptime_scan(s: Seq<char>) -> (u64, Seq<char>)
    decreases s.len(),
{
    if s.len() == 0 {
        (0, Seq::empty())
    } else {
        let (total, num) = uptime_scan(s.drop_last());
        let c = s.last();
        if is_digit(c) {
            (total, num.push(c))
        } else if num.len() == 0 {
            (total, num)
        } else {
            let unit: u64 = match unit_seconds(c) {
                Some(u) => u,
                None => 0,
            };
            (sat_add(total, sat_mul(number_or_zero(num), unit)), Seq::empty())
        }
    }
}

/// Seconds of an uptime in unit form: numbers times their unit, unknown suffixes
/// counting zero, a trailing bare number counting as seconds.
pub open spec fn uptime_units(s: Seq<char>) -> u64 {
    let (total, num) = uptime_scan(s);
    if num.len() == 0 {
        total
    } else {
        sat_add(total, number_or_zero(num))
    }
}

/// Seconds of an uptime string: `HH:MM:SS` and `MM:SS` by their fields (a field that is
/// no number counts zero), everything else by its units; sums saturate.
pub open spec fn uptime_seconds(s: Seq<char>) -> u64 {
    let parts = split_on(s, ':');
    if contains_spec(s, seq![':']) && parts.len() == 3 {
        sat_add(
            sat_add(sat_mul(number_or_zero(parts[0]), 3600), sat_mul(number_or_zero(parts[1]), 60)),
            number_or_zero(parts[2]),
        )
    } else if contains_spec(s, seq![':']) && parts.len() == 2 {
        sat_add(sat_mul(number_or_zero(parts[0]), 60), number_or_zero(parts[1]))
    } else {
        uptime_units(s)
    }
}

fn number_or_zero_exec(s: &[char]) -> (r: u64)
    ensures
        r == number_or_zero(s@),
{
    match parse_u64_chars(s) {
        Some(v) => v,
        None => 0,
    }
}

/// The parts of `s` between colons.
fn split_colons(s: &[char]) -> (r: Vec<Vec<char>>)
    ensures
        r@.len() == split_on(s@, ':').len(),
        forall|i: int| 0 <= i < r@.len() ==> #[trigger] r@[i]@ == split_on(s@, ':')[i],
{
    let mut parts: Vec<Vec<char>> = Vec::new();
    parts.push(Vec::new());
    let mut i: usize = 0;
    assert(s@.subrange(0, 0) =~= Seq::<char>::empty());
    while i < s.len()
        invariant
            i <= s@.len(),
            parts@.len() == split_on(s@.subrange(0, i as int), ':').len(),
            parts@.len() >= 1,
            forall|j: int|
                0 <= j < parts@.len() ==> #[trigger] parts@[j]@ == split_on(
                    s@.subrange(0, i as int),
                    ':',
                )[j],
        decreases s@.len() - i,
    {
        let c = s[i];
        let ghost pre = s@.subrange(0, i as int);
        let ghost next = s@.subrange(0, i + 1);
        assert(next.drop_last() =~= pre);
        assert(next.last() == c);
        if c == ':' {
            parts.push(Vec::new());
        } else {
            let last = parts.len() - 1;
            let mut tail: Vec<char> = Vec::new();
            std::mem::swap(&mut tail, &mut parts[last]);
            tail.push(c);
            parts.set(last, tail);
        }
        i += 1;
        proof {
            assert forall|j: int| 0 <= j < parts@.len() implies #[trigger] parts@[j]@ == split_on(
                next,
                ':',
            )[j] by {}
        }
    }
    assert(s@.subrange(0, s@.len() as int) =~= s@);
    parts
}

/// Reads the unit form of an uptime.
fn uptime_units_exec(cs: &[char]) -> (r: u64)
    ensures
        r == uptime_units(cs@),
{
    let mut total: u64 = 0;
    let mut num: Vec<char> = Vec::new();
    let mut i: usize = 0;
    while i < cs.len()
        invariant
            i <= cs@.len(),
            uptime_scan(cs@.subrange(0, i as int)) == (total, num@),
        decreases cs@.len() - i,
    {
        let c = cs[i];
        assert(cs@.subrange(0, i + 1).drop_last() =~= cs@.subrange(0, i as int));
        if '0' <= c && c <= '9' {
            num.push(c);
        } else if num.len() > 0 {
            let value = number_or_zero_exec(num.as_slice());
            let unit: u64 = match unit_of(c) {
                Some(u) => u,
                None => 0,
            };
            total = total.saturating_add(saturating_mul(value, unit));
            num = Vec::new();
        }
        i += 1;
    }
    assert(cs@.subrange(0, cs@.len() as int) =~= cs@);
    if num.len() > 0 {
        total.saturating_add(number_or_zero_exec(num.as_slice()))
    } else {
        total
    }
}

/// Reads an uptime such as `1d2h3m4s`, `05:23:10` or `23:10` into seconds.
pub fn parse_uptime_to_seconds(s: &str) -> (r: u64)
    ensures
        r == uptime_seconds(s@),
{
    let cs = chars_of(s);
    let colon = vec![':'];
    let has_colon = crate::text::contains(s, ":");
    proof {
        reveal_strlit(":");
        assert(":"@ =~= seq![':']);
    }
    if has_colon {
        let parts = split_colons(cs.as_slice());
        if parts.len() == 3 {
            let h = number_or_zero_exec(parts[0].as_slice());
            let m = number_or_zero_exec(parts[1].as_slice());
            let sec = number_or_zero_exec(parts[2].as_slice());
            return saturating_mul(h, 3600).saturating_add(saturating_mul(m, 60)).saturating_add(
                sec,
            );
        } else if parts.len() == 2 {
            let m = number_or_zero_exec(parts[0].as_slice());
            let sec = number_or_zero_exec(parts[1].as_slice());
            return saturating_mul(m, 60).saturating_add(sec);
        }
    }
    uptime_units_exec(cs.as_slice())
}

/// Reading the same uptime string twice gives the same number of seconds.
pub proof fn lemma_uptime_parse_repeatable(s: Seq<char>, t: Seq<char>)
    requires
        s == t,
    ensures
        uptime_seconds(s) == uptime_seconds(t),
{
}

} // verus!
