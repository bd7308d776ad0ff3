//! Connection pool bookkeeping: per-key error state with exponential backoff, idle
//! connections kept for reuse, leases, idle expiry and purge of unconfigured keys.
//! Times are milliseconds on a monotonic clock, handed in by the caller.
use crate::text::{owned, str_eq};
use vstd::prelude::*;

verus! {

/// Consecutive errors from which the backoff gate applies.
pub const BACKOFF_THRESHOLD: u32 = 3;

/// Consecutive errors from which a key is held back for `LONG_BACKOFF_MS`.
pub const LONG_BACKOFF_ERRORS: u32 = 10;

pub const LONG_BACKOFF_MS: u64 = 3_600_000;

/// Longest backoff of the exponential schedule, in seconds.
pub const MAX_BACKOFF_SECS: u64 = 300;

/// Idle age from which a pooled connection is no longer reused, in milliseconds.
pub const MAX_IDLE_MS: u64 = 300_000;

/// `2^n` for `n <= 8`.
pub open spec fn pow2(n: nat) -> nat
    decreases n,
{
    if n == 0 {
        1
    } else {
        2 * pow2((n - 1) as nat)
    }
}

/// Backoff after `n` consecutive errors, in seconds: `2^min(n, 8)`, at most 300.
pub open spec fn backoff_secs(n: u32) -> u64 {
    let e: nat = if n < 8 {
        n as nat
    } else {
        8
    };
    if pow2(e) > MAX_BACKOFF_SECS {
        MAX_BACKOFF_SECS
    } else {
        pow2(e) as u64
    }
}

/// Time a key is held back after its latest error, in milliseconds: an hour from ten
/// consecutive errors on, else the exponential backoff.
pub open spec fn hold_ms(n: u32) -> u64 {
    if n >= LONG_BACKOFF_ERRORS {
        LONG_BACKOFF_MS
    } else {
        (backoff_secs(n) * 1000) as u64
    }
}

/// Milliseconds from `then` to `now`, zero where the clock reads earlier.
pub open spec fn elapsed(then: u64, now: u64) -> u64 {
    if now >= then {
        (now - then) as u64
    } else {
        0
    }
}

/// Health of one pool key.
#[derive(Debug, Clone, Copy)]
pub struct ConnectionState {
    pub consecutive_errors: u32,
    pub last_error_time: Option<u64>,
    pub last_success_time: Option<u64>,
}

pub open spec fn fresh_state() -> ConnectionState {
    ConnectionState { consecutive_errors: 0, last_error_time: None, last_success_time: None }
}

pub open spec fn succeeded(s: ConnectionState, now: u64) -> ConnectionState {
    ConnectionState { consecutive_errors: 0, last_success_time: Some(now), ..s }
}

pub open spec fn failed(s: ConnectionState, now: u64) -> ConnectionState {
    ConnectionState {
        consecutive_errors: if s.consecutive_errors == u32::MAX {
            u32::MAX
        } else {
            (s.consecutive_errors + 1) as u32
        },
        last_error_time: Some(now),
        ..s
    }
}

/// Whether an attempt at `now` is refused: three or more consecutive errors, and the
/// latest error less than the hold time ago.
pub open spec fn skips(s: ConnectionState, now: u64) -> bool {
    s.consecutive_errors >= BACKOFF_THRESHOLD && match s.last_error_time {
        Some(t) => elapsed(t, now) < hold_ms(s.consecutive_errors),
        None => false,
    }
}

impl ConnectionState {
    pub fn new() -> (r: ConnectionState)
        ensures
            r == fresh_state(),
    {
        ConnectionState { consecutive_errors: 0, last_error_time: None, last_success_time: None }
    }

    pub fn record_success(&mut self, now: u64)
        ensures
            *final(self) == succeeded(*old(self), now),
    {
        self.consecutive_errors = 0;
        self.last_success_time = Some(now);
    }

    pub fn record_error(&mut self, now: u64)
        ensures
            *final(self) == failed(*old(self), now),
    {
        self.consecutive_errors = self.consecutive_errors.saturating_add(1);
        self.last_error_time = Some(now);
    }

    /// Backoff in seconds: `2^min(n, 8)`, at most 300.
    pub fn backoff_delay(&self) -> (r: u64)
        ensures
            r == backoff_secs(self.consecutive_errors),
    {
        let e: u32 = if self.consecutive_errors < 8 {
            self.consecutive_errors
        } else {
            8
        };
        let mut p: u64 = 1;
        let mut i: u32 = 0;
        while i < e
            invariant
                i <= e <= 8,
                p == pow2(i as nat),
                p <= 256,
            decreases e - i,
        {
            proof {
                lemma_pow2_le_256((i + 1) as nat);
            }
            p = p * 2;
            i += 1;
        }
        if p > MAX_BACKOFF_SECS {
            MAX_BACKOFF_SECS
        } else {
            p
        }
    }

    /// Whether an attempt at `now` is refused by the backoff gate.
    pub fn should_skip_attempt(&self, now: u64) -> (r: bool)
        ensures
            r == skips(*self, now),
    {
        if self.consecutive_errors < BACKOFF_THRESHOLD {
            return false;
        }
        let hold: u64 = if self.consecutive_errors >= LONG_BACKOFF_ERRORS {
            LONG_BACKOFF_MS
        } else {
            self.backoff_delay() * 1000
        };
        match self.last_error_time {
            Some(t) => now.saturating_sub(t) < hold,
            None => false,
        }
    }
}

proof fn lemma_pow2_le_256(n: nat)
    requires
        n <= 8,
    ensures
        pow2(n) <= 256,
        pow2(n) >= 1,
    decreases n,
{
    if n > 0 {
        lemma_pow2_le_256((n - 1) as nat);
    }
    lemma_pow2_monotone(n, 8);
    assert(pow2(8) == 256) by {
        reveal_with_fuel(pow2, 9);
    }
}

/// A pool key: device address and user.
pub open spec fn key_of(address: &str, user: &str) -> (Seq<char>, Seq<char>) {
    (address@, user@)
}

/// The error state of one key.
pub struct StateEntry {
    pub address: String,
    pub user: String,
    pub state: ConnectionState,
}

/// An idle connection, with the time it was last handed back.
pub struct PooledConnection<C> {
    pub address: String,
    pub user: String,
    pub connection: C,
    pub last_used: u64,
}

pub open spec fn state_key(e: StateEntry) -> (Seq<char>, Seq<char>) {
    (e.address@, e.user@)
}

pub open spec fn idle_key<C>(e: PooledConnection<C>) -> (Seq<char>, Seq<char>) {
    (e.address@, e.user@)
}

/// The state recorded for key `k`: that of the first entry with the key.
pub open spec fn state_of(s: Seq<StateEntry>, k: (Seq<char>, Seq<char>)) -> Option<ConnectionState>
    decreases s.len(),
{
    if s.len() == 0 {
        None
    } else if state_key(s[0]) == k {
        Some(s[0].state)
    } else {
        state_of(s.drop_first(), k)
    }
}

/// The state of a key, or the state of a key never seen.
pub open spec fn state_or_fresh(s: Seq<StateEntry>, k: (Seq<char>, Seq<char>)) -> ConnectionState {
    match state_of(s, k) {
        Some(st) => st,
        None => fresh_state(),
    }
}

/// Index of the idle connection of key `k`: the entry with that key given back last.
pub open spec fn idle_index<C>(s: Seq<PooledConnection<C>>, k: (Seq<char>, Seq<char>)) -> Option<
    int,
>
    decreases s.len(),
{
    if s.len() == 0 {
        None
    } else if idle_key(s.last()) == k {
        Some(s.len() - 1)
    } else {
        idle_index(s.drop_last(), k)
    }
}

/// The idle connection of key `k`, if any.
pub open spec fn idle_connection<C>(s: Seq<PooledConnection<C>>, k: (Seq<char>, Seq<char>)) -> Option<C> {
    match idle_index(s, k) {
        Some(j) => Some(s[j].connection),
        None => None,
    }
}

/// The idle entries without the idle connection of key `k`.
pub open spec fn without_idle<C>(s: Seq<PooledConnection<C>>, k: (Seq<char>, Seq<char>)) -> Seq<
    PooledConnection<C>,
> {
    match idle_index(s, k) {
        Some(j) => s.remove(j),
        None => s,
    }
}

/// Whether an idle connection last used at `t` may be reused at `now`.
pub open spec fn is_fresh(t: u64, now: u64, max_idle: u64) -> bool {
    elapsed(t, now) < max_idle
}

/// The idle entries that are still fresh at `now`, in order.
pub open spec fn keep_fresh<C>(s: Seq<PooledConnection<C>>, now: u64, max_idle: u64) -> Seq<
    PooledConnection<C>,
>
    decreases s.len(),
{
    if s.len() == 0 {
        s
    } else {
        let p = keep_fresh(s.drop_last(), now, max_idle);
        if is_fresh(s.last().last_used, now, max_idle) {
            p.push(s.last())
        } else {
            p
        }
    }
}

/// Keys of a configured target set.
pub open spec fn key_set(keys: Seq<(String, String)>) -> Set<(Seq<char>, Seq<char>)> {
    Set::new(
        |k: (Seq<char>, Seq<char>)|
            exists|i: int| 0 <= i < keys.len() && (keys[i].0@, keys[i].1@) == k,
    )
}

/// The state entries whose key is configured, in order.
pub open spec fn keep_active(s: Seq<StateEntry>, active: Set<(Seq<char>, Seq<char>)>) -> Seq<
    StateEntry,
>
    decreases s.len(),
{
    if s.len() == 0 {
        s
    } else {
        let p = keep_active(s.drop_last(), active);
        if active.contains(state_key(s.last())) {
            p.push(s.last())
        } else {
            p
        }
    }
}

/// The outcome of asking the pool for a connection.
pub enum Acquire<C> {
    /// The backoff gate refused the key; no connection may be made.
    Disabled { consecutive_errors: u32 },
    /// A fresh idle connection, now leased.
    Reused(C),
    /// Nothing to reuse: the caller dials and logs in, then reports with `finish_dial`.
    Dial,
}

/// Connections and health state per key `(address, user)`.
pub struct ConnectionPool<C> {
    pub idle: Vec<PooledConnection<C>>,
    pub states: Vec<StateEntry>,
    /// Connections handed out and not yet given back.
    pub leased: usize,
    pub max_idle_ms: u64,
    pub shutting_down: bool,
}

/// States of every key other than `k` are the same in `a` and `b`.
pub open spec fn others_kept(a: Seq<StateEntry>, b: Seq<StateEntry>, k: (Seq<char>, Seq<char>)) -> bool {
    forall|k2: (Seq<char>, Seq<char>)| k2 != k ==> #[trigger] state_of(b, k2) == state_of(a, k2)
}

/// `q` is `p` after a fresh idle connection `c` of key `k` was leased out at `now`.
pub open spec fn reused<C>(p: ConnectionPool<C>, q: ConnectionPool<C>, k: (Seq<char>, Seq<char>), c: C, now: u64) -> bool {
    &&& idle_index(p.idle@, k) matches Some(j)
    &&& c == p.idle@[j].connection
    &&& is_fresh(p.idle@[j].last_used, now, p.max_idle_ms)
    &&& q.idle@ == without_idle(p.idle@, k)
    &&& q.leased == p.leased + 1
}

/// `q` is `p` after a dial and login for key `k` succeeded at `now`.
pub open spec fn dialed<C>(p: ConnectionPool<C>, q: ConnectionPool<C>, k: (Seq<char>, Seq<char>), now: u64) -> bool {
    &&& state_of(q.states@, k) == Some(succeeded(state_or_fresh(p.states@, k), now))
    &&& others_kept(p.states@, q.states@, k)
    &&& q.idle@ == p.idle@
    &&& q.leased == if p.leased < usize::MAX {
        p.leased + 1
    } else {
        p.leased as int
    }
}

/// `q` is `p` after a dial or login for key `k` failed at `now`.
pub open spec fn dial_failed<C>(p: ConnectionPool<C>, q: ConnectionPool<C>, k: (Seq<char>, Seq<char>), now: u64) -> bool {
    &&& state_of(q.states@, k) == Some(failed(state_or_fresh(p.states@, k), now))
    &&& others_kept(p.states@, q.states@, k)
    &&& q.idle@ == p.idle@
    &&& q.leased == p.leased
}

/// `q` is `p` after an error was recorded against key `k` at `now`.
pub open spec fn errored<C>(p: ConnectionPool<C>, q: ConnectionPool<C>, k: (Seq<char>, Seq<char>), now: u64) -> bool {
    &&& state_of(q.states@, k) == Some(failed(state_or_fresh(p.states@, k), now))
    &&& others_kept(p.states@, q.states@, k)
    &&& q.idle@ == p.idle@
    &&& q.leased == p.leased
    &&& q.shutting_down == p.shutting_down
    &&& q.max_idle_ms == p.max_idle_ms
}

/// `q` is `p` after the leased connection `c` of key `k` was given back at `now`.
pub open spec fn released<C>(p: ConnectionPool<C>, q: ConnectionPool<C>, k: (Seq<char>, Seq<char>), c: C, now: u64) -> bool {
    &&& q.states@ == p.states@
    &&& q.leased == (if p.leased > 0 { p.leased - 1 } else { 0 })
    &&& q.shutting_down == p.shutting_down
    &&& q.max_idle_ms == p.max_idle_ms
    &&& p.shutting_down ==> q.idle@ == p.idle@
    &&& !p.shutting_down ==> {
        &&& q.idle@.len() >= 1
        &&& q.idle@.drop_last() == without_idle(p.idle@, k)
        &&& q.idle@.last().connection == c
        &&& idle_key(q.idle@.last()) == k
        &&& q.idle@.last().last_used == now
    }
}

impl<C> Default for ConnectionPool<C> {
    fn default() -> (r: ConnectionPool<C>)
        ensures
            r.idle@.len() == 0,
            r.states@.len() == 0,
            r.leased == 0,
            r.max_idle_ms == MAX_IDLE_MS,
            !r.shutting_down,
    {
        ConnectionPool::new()
    }
}

impl<C> ConnectionPool<C> {
    pub fn new() -> (r: ConnectionPool<C>)
        ensures
            r.idle@.len() == 0,
            r.states@.len() == 0,
            r.leased == 0,
            r.max_idle_ms == MAX_IDLE_MS,
            !r.shutting_down,
    {
        ConnectionPool {
            idle: Vec::new(),
            states: Vec::new(),
            leased: 0,
            max_idle_ms: MAX_IDLE_MS,
            shutting_down: false,
        }
    }

    fn find_state(&self, address: &str, user: &str) -> (r: Option<usize>)
        ensures
            r matches Some(j) ==> j < self.states@.len() && state_key(self.states@[j as int])
                == key_of(address, user) && state_of(self.states@, key_of(address, user)) == Some(
                self.states@[j as int].state,
            ) && forall|i: int| 0 <= i < j ==> state_key(#[trigger] self.states@[i]) != key_of(address, user),
            r is None ==> state_of(self.states@, key_of(address, user)) is None,
    {
        let ghost k = key_of(address, user);
        let mut j: usize = 0;
        assert(self.states@.subrange(0, self.states@.len() as int) =~= self.states@);
        while j < self.states.len()
            invariant
                k == key_of(address, user),
                j <= self.states@.len(),
                forall|i: int| 0 <= i < j ==> state_key(#[trigger] self.states@[i]) != k,
                state_of(self.states@, k) == state_of(
                    self.states@.subrange(j as int, self.states@.len() as int),
                    k,
                ),
            decreases self.states@.len() - j,
        {
            let ghost rest = self.states@.subrange(j as int, self.states@.len() as int);
            assert(rest.drop_first() =~= self.states@.subrange(j + 1, self.states@.len() as int));
            assert(rest[0] == self.states@[j as int]);
            let same_address = str_eq(self.states[j].address.as_str(), address);
            let same_user = str_eq(self.states[j].user.as_str(), user);
            if same_address && same_user {
                return Some(j);
            }
            assert(state_key(self.states@[j as int]) != k);
            j += 1;
        }
        assert(self.states@.subrange(j as int, self.states@.len() as int).len() == 0);
        None
    }

    /// Applies the outcome of an operation to the state of a key, creating the key's
    /// entry first where needed.
    fn update_state(&mut self, address: &str, user: &str, now: u64, success: bool)
        ensures
            state_of(final(self).states@, key_of(address, user)) == Some(
                if success {
                    succeeded(state_or_fresh(old(self).states@, key_of(address, user)), now)
                } else {
                    failed(state_or_fresh(old(self).states@, key_of(address, user)), now)
                },
            ),
            others_kept(old(self).states@, final(self).states@, key_of(address, user)),
            final(self).idle@ == old(self).idle@,
            final(self).leased == old(self).leased,
            final(self).max_idle_ms == old(self).max_idle_ms,
            final(self).shutting_down == old(self).shutting_down,
    {
        let mut st = match self.find_state(address, user) {
            Some(j) => self.states[j].state,
            None => ConnectionState::new(),
        };
        if success {
            st.record_success(now);
        } else {
            st.record_error(now);
        }
        self.put_state(address, user, st);
    }

    /// Sets the state of a key, creating its entry where needed.
    fn put_state(&mut self, address: &str, user: &str, st: ConnectionState)
        ensures
            state_of(final(self).states@, key_of(address, user)) == Some(st),
            others_kept(old(self).states@, final(self).states@, key_of(address, user)),
            final(self).idle@ == old(self).idle@,
            final(self).leased == old(self).leased,
            final(self).max_idle_ms == old(self).max_idle_ms,
            final(self).shutting_down == old(self).shutting_down,
    {
        let entry = StateEntry { address: owned(address), user: owned(user), state: st };
        let ghost before = self.states@;
        match self.find_state(address, user) {
            Some(j) => {
                self.states.set(j, entry);
                proof {
                    lemma_state_update(before, j as int, self.states@[j as int]);
                }
            },
            None => {
                self.states.push(entry);
                proof {
                    lemma_state_push(before, self.states@.last());
                }
            },
        }
    }

    /// Records a successful operation against a key: its error count goes back to zero.
    pub fn record_success(&mut self, address: &str, user: &str, now: u64)
        ensures
            state_of(final(self).states@, key_of(address, user)) == Some(
                succeeded(state_or_fresh(old(self).states@, key_of(address, user)), now),
            ),
            others_kept(old(self).states@, final(self).states@, key_of(address, user)),
            final(self).idle@ == old(self).idle@,
            final(self).leased == old(self).leased,
            final(self).shutting_down == old(self).shutting_down,
            final(self).max_idle_ms == old(self).max_idle_ms,
    {
        self.update_state(address, user, now, true);
    }

    /// Records a failed operation against a key: one more consecutive error.
    pub fn record_error(&mut self, address: &str, user: &str, now: u64)
        ensures
            errored(*old(self), *final(self), key_of(address, user), now),
    {
        self.update_state(address, user, now, false);
    }

    /// Error count of a key and whether it ever succeeded, if the key is known.
    pub fn get_connection_state(&self, address: &str, user: &str) -> (r: Option<(u32, bool)>)
        ensures
            r == match state_of(self.states@, key_of(address, user)) {
                Some(s) => Some((s.consecutive_errors, s.last_success_time is Some)),
                None => None,
            },
    {
        match self.find_state(address, user) {
            Some(j) => Some(
                (
                    self.states[j].state.consecutive_errors,
                    self.states[j].state.last_success_time.is_some(),
                ),
            ),
            None => None,
        }
    }

    /// Idle connections held and connections currently leased.
    pub fn get_pool_stats(&self) -> (r: (usize, usize))
        ensures
            r == (self.idle@.len() as usize, self.leased),
    {
        (self.idle.len(), self.leased)
    }

    fn find_idle(&self, address: &str, user: &str) -> (r: Option<usize>)
        ensures
            r matches Some(j) ==> idle_index(self.idle@, key_of(address, user)) == Some(j as int)
                && j < self.idle@.len(),
            r is None ==> idle_index(self.idle@, key_of(address, user)) is None,
    {
        let ghost k = key_of(address, user);
        let mut j: usize = self.idle.len();
        assert(self.idle@.subrange(0, j as int) =~= self.idle@);
        while j > 0
            invariant
                k == key_of(address, user),
                j <= self.idle@.len(),
                idle_index(self.idle@, k) == idle_index(self.idle@.subrange(0, j as int), k),
            decreases j,
        {
            let ghost pre = self.idle@.subrange(0, j as int);
            assert(pre.drop_last() =~= self.idle@.subrange(0, j - 1));
            assert(pre.last() == self.idle@[j - 1]);
            let same_address = str_eq(self.idle[j - 1].address.as_str(), address);
            let same_user = str_eq(self.idle[j - 1].user.as_str(), user);
            if same_address && same_user {
                return Some(j - 1);
            }
            assert(idle_key(pre.last()) != k);
            j -= 1;
        }
        None
    }

    /// Asks for a connection to `(address, user)` at `now`. The backoff gate comes first
    /// and, when it refuses, the idle connections and the leases stay as they were.
    /// Else a fresh idle connection of the key is leased out; an expired one is dropped;
    /// and with nothing to reuse the caller is told to dial.
    pub fn begin_acquire(&mut self, address: &str, user: &str, now: u64) -> (r: Acquire<C>)
        ensures
            final(self).shutting_down == old(self).shutting_down,
            final(self).max_idle_ms == old(self).max_idle_ms,
            state_of(final(self).states@, key_of(address, user)) == Some(
                state_or_fresh(old(self).states@, key_of(address, user)),
            ),
            others_kept(old(self).states@, final(self).states@, key_of(address, user)),
            (r is Disabled) == skips(state_or_fresh(old(self).states@, key_of(address, user)), now),
            r matches Acquire::Disabled { consecutive_errors } ==> consecutive_errors
                == state_or_fresh(old(self).states@, key_of(address, user)).consecutive_errors
                && final(self).idle@ == old(self).idle@ && final(self).leased == old(self).leased,
            r matches Acquire::Reused(c) ==> reused(*old(self), *final(self), key_of(address, user), c, now),
            r is Dial ==> (match idle_index(old(self).idle@, key_of(address, user)) {
                Some(j) => !is_fresh(old(self).idle@[j].last_used, now, old(self).max_idle_ms)
                    || old(self).leased == usize::MAX,
                None => true,
            }) && final(self).idle@ == without_idle(old(self).idle@, key_of(address, user))
                && final(self).leased == old(self).leased,
    {
        let st = match self.find_state(address, user) {
            Some(j) => self.states[j].state,
            None => ConnectionState::new(),
        };
        self.put_state(address, user, st);
        if st.should_skip_attempt(now) {
            return Acquire::Disabled { consecutive_errors: st.consecutive_errors };
        }
        match self.find_idle(address, user) {
            Some(j) => {
                let fresh = now.saturating_sub(self.idle[j].last_used) < self.max_idle_ms;
                let entry = self.idle.remove(j);
                if fresh && self.leased < usize::MAX {
                    self.leased = self.leased + 1;
                    Acquire::Reused(entry.connection)
                } else {
                    Acquire::Dial
                }
            },
            None => Acquire::Dial,
        }
    }

    /// Reports the outcome of a dial and login for a key: success clears the key's error
    /// count and leases the new connection; failure counts one more error.
    pub fn finish_dial(&mut self, address: &str, user: &str, ok: bool, now: u64)
        ensures
            ok ==> dialed(*old(self), *final(self), key_of(address, user), now),
            !ok ==> dial_failed(*old(self), *final(self), key_of(address, user), now),
            final(self).shutting_down == old(self).shutting_down,
            final(self).max_idle_ms == old(self).max_idle_ms,
    {
        self.update_state(address, user, now, ok);
        if ok && self.leased < usize::MAX {
            self.leased = self.leased + 1;
        }
    }

    /// Gives a leased connection back at `now`: it becomes the key's idle connection,
    /// replacing an older one, unless the pool is shutting down, when it is dropped.
    pub fn release_connection(&mut self, address: &str, user: &str, conn: C, now: u64)
        ensures
            released(*old(self), *final(self), key_of(address, user), conn, now),
    {
        if self.leased > 0 {
            self.leased = self.leased - 1;
        }
        if self.shutting_down {
            return;
        }
        match self.find_idle(address, user) {
            Some(j) => {
                let _replaced = self.idle.remove(j);
            },
            None => {},
        }
        let ghost kept = self.idle@;
        assert(kept == without_idle(old(self).idle@, key_of(address, user)));
        self.idle.push(
            PooledConnection {
                address: owned(address),
                user: owned(user),
                connection: conn,
                last_used: now,
            },
        );
        assert(self.idle@.drop_last() =~= kept);
    }

    /// Gives up a leased connection without keeping it, after it failed.
    pub fn discard_connection(&mut self, conn: C)
        ensures
            final(self).leased == if old(self).leased > 0 {
                old(self).leased - 1
            } else {
                0
            },
            final(self).idle@ == old(self).idle@,
            final(self).states@ == old(self).states@,
            final(self).shutting_down == old(self).shutting_down,
            final(self).max_idle_ms == old(self).max_idle_ms,
    {
        if self.leased > 0 {
            self.leased = self.leased - 1;
        }
    }

    /// From now on, connections given back are dropped.
    pub fn begin_shutdown(&mut self)
        ensures
            final(self).shutting_down,
            final(self).idle@ == old(self).idle@,
            final(self).states@ == old(self).states@,
            final(self).leased == old(self).leased,
            final(self).max_idle_ms == old(self).max_idle_ms,
    {
        self.shutting_down = true;
    }

    /// Drops every idle connection whose idle age at `now` reached the limit.
    pub fn cleanup(&mut self, now: u64)
        ensures
            final(self).idle@ == keep_fresh(old(self).idle@, now, old(self).max_idle_ms),
            final(self).states@ == old(self).states@,
            final(self).leased == old(self).leased,
            final(self).shutting_down == old(self).shutting_down,
            final(self).max_idle_ms == old(self).max_idle_ms,
    {
        let mut rest: Vec<PooledConnection<C>> = Vec::new();
        std::mem::swap(&mut rest, &mut self.idle);
        let ghost orig = rest@;
        let mut kept: Vec<PooledConnection<C>> = Vec::new();
        while rest.len() > 0
            invariant
                rest@.len() <= orig.len(),
                rest@ == orig.subrange(orig.len() - rest@.len(), orig.len() as int),
                kept@ == keep_fresh(
                    orig.subrange(0, orig.len() - rest@.len()),
                    now,
                    self.max_idle_ms,
                ),
                self.max_idle_ms == old(self).max_idle_ms,
            decreases rest@.len(),
        {
            let ghost n = orig.len() - rest@.len();
            let e = rest.remove(0);
            proof {
                assert(orig.subrange(0, n + 1).drop_last() =~= orig.subrange(0, n));
                assert(rest@ =~= orig.subrange(n + 1, orig.len() as int));
            }
            if now.saturating_sub(e.last_used) < self.max_idle_ms {
                kept.push(e);
            }
        }
        assert(orig.subrange(0, orig.len() as int) =~= orig);
        self.idle = kept;
    }

    /// Forgets the error state of every key that is not among `active_keys`.
    pub fn cleanup_states(&mut self, active_keys: &[(String, String)])
        ensures
            final(self).states@ == keep_active(old(self).states@, key_set(active_keys@)),
            forall|k: (Seq<char>, Seq<char>)|
                #![trigger state_of(final(self).states@, k)]
                state_of(final(self).states@, k) == if key_set(active_keys@).contains(k) {
                    state_of(old(self).states@, k)
                } else {
                    None
                },
            final(self).idle@ == old(self).idle@,
            final(self).leased == old(self).leased,
            final(self).shutting_down == old(self).shutting_down,
            final(self).max_idle_ms == old(self).max_idle_ms,
    {
        let ghost active = key_set(active_keys@);
        let mut rest: Vec<StateEntry> = Vec::new();
        std::mem::swap(&mut rest, &mut self.states);
        let ghost orig = rest@;
        let mut kept: Vec<StateEntry> = Vec::new();
        while rest.len() > 0
            invariant
                rest@.len() <= orig.len(),
                rest@ == orig.subrange(orig.len() - rest@.len(), orig.len() as int),
                kept@ == keep_active(orig.subrange(0, orig.len() - rest@.len()), active),
                active == key_set(active_keys@),
            decreases rest@.len(),
        {
            let ghost n = orig.len() - rest@.len();
            let e = rest.remove(0);
            proof {
                assert(orig.subrange(0, n + 1).drop_last() =~= orig.subrange(0, n));
                assert(rest@ =~= orig.subrange(n + 1, orig.len() as int));
            }
            if key_is_active(&e, active_keys) {
                kept.push(e);
            }
        }
        assert(orig.subrange(0, orig.len() as int) =~= orig);
        self.states = kept;
        proof {
            lemma_keep_active(orig, active);
        }
    }
}

fn key_is_active(e: &StateEntry, active_keys: &[(String, String)]) -> (r: bool)
    ensures
        r == key_set(active_keys@).contains(state_key(*e)),
{
    let mut i: usize = 0;
    while i < active_keys.len()
        invariant
            i <= active_keys@.len(),
            forall|j: int| 0 <= j < i ==> (active_keys@[j].0@, active_keys@[j].1@) != state_key(*e),
        decreases active_keys@.len() - i,
    {
        if active_keys[i].0 == e.address && active_keys[i].1 == e.user {
            assert((active_keys@[i as int].0@, active_keys@[i as int].1@) == state_key(*e));
            return true;
        }
        i += 1;
    }
    false
}

/// Looking a key up after an entry is appended.
proof fn lemma_state_of_push(s: Seq<StateEntry>, e: StateEntry, k: (Seq<char>, Seq<char>))
    ensures
        state_of(s.push(e), k) == match state_of(s, k) {
            Some(st) => Some(st),
            None => if state_key(e) == k {
                Some(e.state)
            } else {
                None
            },
        },
    decreases s.len(),
{
    if s.len() > 0 {
        assert(s.push(e).drop_first() =~= s.drop_first().push(e));
        assert(s.push(e)[0] == s[0]);
        lemma_state_of_push(s.drop_first(), e, k);
    } else {
        assert(s.push(e).drop_first() =~= Seq::<StateEntry>::empty());
        assert(s.push(e)[0] == e);
        assert(state_of(Seq::<StateEntry>::empty(), k) is None);
    }
}

proof fn lemma_state_push(s: Seq<StateEntry>, e: StateEntry)
    requires
        state_of(s, state_key(e)) is None,
    ensures
        state_of(s.push(e), state_key(e)) == Some(e.state),
        others_kept(s, s.push(e), state_key(e)),
{
    lemma_state_of_push(s, e, state_key(e));
    assert forall|k2: (Seq<char>, Seq<char>)| k2 != state_key(e) implies #[trigger] state_of(
        s.push(e),
        k2,
    ) == state_of(s, k2) by {
        lemma_state_of_push(s, e, k2);
    }
}

/// Replacing the first entry of a key changes the state of that key only.
proof fn lemma_state_update(s: Seq<StateEntry>, j: int, e: StateEntry)
    requires
        0 <= j < s.len(),
        state_key(s[j]) == state_key(e),
        forall|i: int| 0 <= i < j ==> state_key(#[trigger] s[i]) != state_key(e),
    ensures
        state_of(s.update(j, e), state_key(e)) == Some(e.state),
        others_kept(s, s.update(j, e), state_key(e)),
    decreases j,
{
    let u = s.update(j, e);
    if j > 0 {
        assert(u.drop_first() =~= s.drop_first().update(j - 1, e));
        assert forall|i: int| 0 <= i < j - 1 implies state_key(
            #[trigger] s.drop_first()[i],
        ) != state_key(e) by {
            assert(s.drop_first()[i] == s[i + 1]);
        }
        lemma_state_update(s.drop_first(), j - 1, e);
        assert(state_key(s[0]) != state_key(e));
        assert(u[0] == s[0]);
        assert forall|k2: (Seq<char>, Seq<char>)| k2 != state_key(e) implies #[trigger] state_of(
            u,
            k2,
        ) == state_of(s, k2) by {
            if state_key(s[0]) != k2 {
                assert(state_of(u.drop_first(), k2) == state_of(s.drop_first(), k2));
            }
        }
    } else {
        assert(u.drop_first() =~= s.drop_first());
        assert(u[0] == e);
        assert forall|k2: (Seq<char>, Seq<char>)| k2 != state_key(e) implies #[trigger] state_of(
            u,
            k2,
        ) == state_of(s, k2) by {}
    }
}

proof fn lemma_keep_active(s: Seq<StateEntry>, active: Set<(Seq<char>, Seq<char>)>)
    ensures
        forall|k: (Seq<char>, Seq<char>)|
            #![trigger state_of(keep_active(s, active), k)]
            state_of(keep_active(s, active), k) == if active.contains(k) {
                state_of(s, k)
            } else {
                None
            },
    decreases s.len(),
{
    if s.len() > 0 {
        lemma_keep_active(s.drop_last(), active);
        assert(s =~= s.drop_last().push(s.last()));
        assert forall|k: (Seq<char>, Seq<char>)|
            #![trigger state_of(keep_active(s, active), k)]
            state_of(keep_active(s, active), k) == if active.contains(k) {
                state_of(s, k)
            } else {
                None
            } by {
            lemma_state_of_push(s.drop_last(), s.last(), k);
            if active.contains(state_key(s.last())) {
                lemma_state_of_push(keep_active(s.drop_last(), active), s.last(), k);
            }
        }
    }
}

/// A connection leased from the pool and then given back is again the idle connection
/// of its key, and the lease count is back where it was; this holds whether the lease
/// reused an idle connection or came from a fresh dial and login.
pub proof fn lemma_lease_returns<C>(
    start: ConnectionPool<C>,
    leased_out: ConnectionPool<C>,
    given_back: ConnectionPool<C>,
    k: (Seq<char>, Seq<char>),
    c: C,
    t1: u64,
    t2: u64,
    from_idle: bool,
)
    requires
        from_idle ==> reused(start, leased_out, k, c, t1),
        !from_idle ==> dialed(start, leased_out, k, t1),
        released(leased_out, given_back, k, c, t2),
        !leased_out.shutting_down,
    ensures
        idle_connection(given_back.idle@, k) == Some(c),
        start.leased < usize::MAX ==> given_back.leased == start.leased,
{
    let s = given_back.idle@;
    assert(s =~= s.drop_last().push(s.last()));
}

/// A failed dial or login leases nothing: the lease count and the idle connections stay
/// as they were, and the key's error count grows by one.
pub proof fn lemma_failed_dial_leases_nothing<C>(
    start: ConnectionPool<C>,
    leased_out: ConnectionPool<C>,
    k: (Seq<char>, Seq<char>),
    t: u64,
)
    requires
        dial_failed(start, leased_out, k, t),
    ensures
        leased_out.leased == start.leased,
        leased_out.idle@ == start.idle@,
        state_of(leased_out.states@, k) matches Some(st) && st.consecutive_errors == failed(
            state_or_fresh(start.states@, k),
            t,
        ).consecutive_errors,
{
}

/// After three consecutive errors without a success in between, an attempt within the
/// backoff delay of the latest error is refused.
pub proof fn lemma_backoff_gate(s: ConnectionState, t1: u64, t2: u64, t3: u64, now: u64)
    requires
        elapsed(t3, now) < backoff_secs(3) * 1000,
    ensures
        skips(failed(failed(failed(s, t1), t2), t3), now),
{
    let f = failed(failed(failed(s, t1), t2), t3);
    assert(f.consecutive_errors >= 3);
    assert(backoff_secs(3) == 8) by {
        reveal_with_fuel(pow2, 4);
    }
    if f.consecutive_errors < LONG_BACKOFF_ERRORS {
        lemma_backoff_monotone(3, f.consecutive_errors);
    }
}

/// Three errors recorded against a key, with no success in between, make the next
/// acquire within the backoff delay of the latest one return `Disabled` (see
/// `begin_acquire`: it refuses exactly when `skips` holds of the key's state).
pub proof fn lemma_backoff_gate_in_pool<C>(
    first: ConnectionPool<C>,
    second: ConnectionPool<C>,
    third: ConnectionPool<C>,
    fourth: ConnectionPool<C>,
    k: (Seq<char>, Seq<char>),
    t1: u64,
    t2: u64,
    t3: u64,
    now: u64,
)
    requires
        errored(first, second, k, t1),
        errored(second, third, k, t2),
        errored(third, fourth, k, t3),
        elapsed(t3, now) < backoff_secs(3) * 1000,
    ensures
        skips(state_or_fresh(fourth.states@, k), now),
{
    lemma_backoff_gate(state_or_fresh(first.states@, k), t1, t2, t3, now);
}

/// Three failed dials of a key never seen before, the last less than the backoff delay
/// ago, leave exactly three consecutive errors, and the next acquire is refused
/// (`begin_acquire` returns `Disabled` exactly when `skips` holds) before any dial.
pub proof fn lemma_failure_storm<C>(
    first: ConnectionPool<C>,
    second: ConnectionPool<C>,
    third: ConnectionPool<C>,
    fourth: ConnectionPool<C>,
    k: (Seq<char>, Seq<char>),
    t1: u64,
    t2: u64,
    t3: u64,
    now: u64,
)
    requires
        state_of(first.states@, k) is None,
        dial_failed(first, second, k, t1),
        dial_failed(second, third, k, t2),
        dial_failed(third, fourth, k, t3),
        elapsed(t3, now) < backoff_secs(3) * 1000,
    ensures
        state_or_fresh(fourth.states@, k).consecutive_errors == 3,
        skips(state_or_fresh(fourth.states@, k), now),
{
    lemma_backoff_gate(fresh_state(), t1, t2, t3, now);
}

/// A successful dial and login clears the key's error count and marks it as having
/// succeeded.
pub proof fn lemma_success_resets<C>(p: ConnectionPool<C>, q: ConnectionPool<C>, k: (Seq<char>, Seq<char>), t: u64)
    requires
        dialed(p, q, k, t),
    ensures
        state_of(q.states@, k) matches Some(st) && st.consecutive_errors == 0
            && st.last_success_time is Some,
{
}

proof fn lemma_backoff_monotone(a: u32, b: u32)
    requires
        a <= b,
    ensures
        backoff_secs(a) <= backoff_secs(b),
{
    let ea: nat = if a < 8 { a as nat } else { 8 };
    let eb: nat = if b < 8 { b as nat } else { 8 };
    lemma_pow2_monotone(ea, eb);
}

proof fn lemma_pow2_monotone(a: nat, b: nat)
    requires
        a <= b,
    ensures
        pow2(a) <= pow2(b),
    decreases b,
{
    if a < b {
        lemma_pow2_monotone(a, (b - 1) as nat);
    }
}

} // verus!
