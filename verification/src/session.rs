//! The in-memory session pool: random alphanumeric tokens with creation
//! timestamps and a fixed time-to-live, expired lazily when checked.
//!
//! Time is modelled as milliseconds on a `u64`. Each clock-reading entry
//! point (`generate`, `check`, `since`) is a thin layer over an `_at`
//! variant that takes the reading as an argument; the `_at` variants carry
//! the exact contracts, stated for every value of the reading.

use vstd::prelude::*;
use vstd::string::StringSliceAdditionalSpecFns;
use crate::codec::bytes_eq;

verus! {

/// Whether `c` is one of the 62 ASCII alphanumeric characters, the token
/// alphabet.
pub open spec fn is_alnum_char(c: char) -> bool {
    ||| ('a' as u32) <= (c as u32) && (c as u32) <= ('z' as u32)
    ||| ('A' as u32) <= (c as u32) && (c as u32) <= ('Z' as u32)
    ||| ('0' as u32) <= (c as u32) && (c as u32) <= ('9' as u32)
}

/// The milliseconds elapsed from `created` to `now`, zero when the clock
/// reads earlier than the creation time.
pub open spec fn elapsed_ms(created: u64, now: u64) -> int {
    if now >= created {
        now - created
    } else {
        0
    }
}

/// Whether a session created at `created` has outlived `ttl` at `now`:
/// expiry is strictly more than `ttl` milliseconds from creation.
pub open spec fn expired(created: u64, now: u64, ttl: u64) -> bool {
    elapsed_ms(created, now) > ttl
}

/// Whether some session in `pool` carries `tok`.
pub open spec fn has_token(pool: Seq<(Seq<char>, u64)>, tok: Seq<char>) -> bool {
    exists|i: int| 0 <= i < pool.len() && pool[i].0 == tok
}

/// What one liveness check does to a pool: an absent token reads `false`
/// and changes nothing; otherwise the first session with the token decides:
/// expired at `now`, it is evicted and the check reads `false`; live, the
/// check reads `true` and changes nothing.
pub open spec fn checked(
    pool: Seq<(Seq<char>, u64)>,
    pool2: Seq<(Seq<char>, u64)>,
    tok: Seq<char>,
    now: u64,
    ttl: u64,
    r: bool,
) -> bool {
    if !has_token(pool, tok) {
        !r && pool2 == pool
    } else {
        exists|i: int|
            #![trigger pool[i]]
            {
                &&& 0 <= i < pool.len()
                &&& pool[i].0 == tok
                &&& (forall|j: int| 0 <= j < i ==> pool[j].0 != tok)
                &&& if expired(pool[i].1, now, ttl) {
                    !r && pool2 == pool.remove(i)
                } else {
                    r && pool2 == pool
                }
            }
    }
}

/// A fresh token is live: recording a session at time `now` for a token
/// that no session in the pool carries, a check at any time from which no
/// more than the time-to-live has elapsed since `now` finds it live and
/// changes nothing.
pub proof fn law_fresh_token_live(
    pool: Seq<(Seq<char>, u64)>,
    tok: Seq<char>,
    now: u64,
    later: u64,
    ttl: u64,
)
    requires
        !has_token(pool, tok),
        !expired(now, later, ttl),
    ensures
        checked(pool.push((tok, now)), pool.push((tok, now)), tok, later, ttl, true),
{
    let pool2 = pool.push((tok, now));
    let n = pool.len() as int;
    assert(pool2[n].0 == tok);
    assert(forall|j: int| 0 <= j < n ==> pool2[j] == pool[j]);
    assert(has_token(pool2, tok));
    assert(0 <= n < pool2.len() && pool2[n].0 == tok && (forall|j: int|
        0 <= j < n ==> pool2[j].0 != tok) && !expired(pool2[n].1, later, ttl));
}

/// A dropped session stays dropped: when at most one session carries a
/// token, no session in the pool with that session removed carries it, so a
/// check at any time reads `false` and changes nothing. This covers both
/// explicit invalidation and lazy eviction on expiry, which drop the
/// session the same way.
pub proof fn law_removed_token_dead(
    pool: Seq<(Seq<char>, u64)>,
    i: int,
    tok: Seq<char>,
    now: u64,
    ttl: u64,
)
    requires
        0 <= i < pool.len(),
        pool[i].0 == tok,
        forall|j: int| 0 <= j < pool.len() && j != i ==> pool[j].0 != tok,
    ensures
        !has_token(pool.remove(i), tok),
        checked(pool.remove(i), pool.remove(i), tok, now, ttl, false),
{
    let p2 = pool.remove(i);
    assert forall|j: int| 0 <= j < p2.len() implies #[trigger] p2[j].0 != tok by {
        if j < i {
            assert(p2[j] == pool[j]);
        } else {
            assert(p2[j] == pool[j + 1]);
        }
    }
}

/// Relies on rand's `Alphanumeric` distribution sampled from `thread_rng`:
/// every sampled byte is one of the 62 ASCII alphanumeric characters, and
/// `take(n)` over the endless sample iterator yields exactly `n` of them.
#[verifier::external_body]
fn random_alnum(n: usize) -> (r: String)
    ensures
        r@.len() == n as int,
        forall|i: int| 0 <= i < r@.len() ==> is_alnum_char(r@[i]),
{
    rand::Rng::sample_iter(rand::thread_rng(), &rand::distributions::Alphanumeric).take(
        n,
    ).map(char::from).collect()
}

/// Relies on std's `SystemTime::now`: one reading of the system clock, as
/// whole milliseconds since the Unix epoch (zero if the clock reads before
/// the epoch). Nothing is assumed of the value; callers state what holds
/// for every reading.
#[verifier::external_body]
fn now_ms() -> u64 {
    match std::time::SystemTime::now().duration_since(std::time::UNIX_EPOCH) {
        Ok(d) => d.as_millis() as u64,
        Err(_) => 0,
    }
}

/// Compares two string slices by their UTF-8 bytes.
fn str_eq(a: &str, b: &str) -> (r: bool)
    ensures
        r == (a@ == b@),
{
    let r = bytes_eq(a.as_bytes(), b.as_bytes());
    proof {
        if a.spec_bytes() == b.spec_bytes() {
            vstd::utf8::encode_utf8_decode_utf8(a@);
            vstd::utf8::encode_utf8_decode_utf8(b@);
        }
    }
    r
}

/// One issued session: its token and its creation time in milliseconds.
pub struct Session {
    token: String,
    created_ms: u64,
}

impl Session {
    /// The session's token.
    pub closed spec fn token_spec(&self) -> Seq<char> {
        self.token@
    }

    /// The session's creation time, in milliseconds.
    pub closed spec fn created_spec(&self) -> u64 {
        self.created_ms
    }

    /// A session for `token`, created at the current clock reading.
    pub fn new(token: &str) -> (s: Session)
        ensures
            s.token_spec() == token@,
    {
        let now = now_ms();
        Session::new_at(token, now)
    }

    /// A session for `token`, created at time `now`.
    pub fn new_at(token: &str, now: u64) -> (s: Session)
        ensures
            s.token_spec() == token@,
            s.created_spec() == now,
    {
        Session { token: token.to_owned(), created_ms: now }
    }

    /// The milliseconds elapsed since the session's creation, per the
    /// current clock reading; zero when the clock reads earlier than the
    /// creation time.
    pub fn since(&self) -> (r: u64)
        ensures
            exists|now: u64| r == elapsed_ms(self.created_spec(), now),
    {
        let now = now_ms();
        let r = self.since_at(now);
        proof {
            assert(r == elapsed_ms(self.created_spec(), now));
        }
        r
    }

    /// The milliseconds elapsed from the session's creation to `now`; zero
    /// when `now` is earlier than the creation time.
    pub fn since_at(&self, now: u64) -> (r: u64)
        ensures
            r == elapsed_ms(self.created_spec(), now),
    {
        if now >= self.created_ms {
            now - self.created_ms
        } else {
            0
        }
    }
}

/// The pool of live sessions, with the time-to-live fixed at construction.
/// Its view is the sequence of (token, creation time) pairs, in order of
/// issuance.
pub struct SessionPool {
    sessions: Vec<Session>,
    ttl_ms: u64,
}

impl View for SessionPool {
    type V = Seq<(Seq<char>, u64)>;

    closed spec fn view(&self) -> Seq<(Seq<char>, u64)> {
        self.sessions@.map_values(|s: Session| (s.token_spec(), s.created_spec()))
    }
}

impl SessionPool {
    /// The configured time-to-live, in milliseconds.
    pub closed spec fn ttl_spec(&self) -> u64 {
        self.ttl_ms
    }

    /// An empty pool with the given time-to-live in milliseconds.
    pub fn new(ttl_ms: u64) -> (p: SessionPool)
        ensures
            p@ == Seq::<(Seq<char>, u64)>::empty(),
            p.ttl_spec() == ttl_ms,
    {
        SessionPool { sessions: Vec::new(), ttl_ms }
    }

    /// The index of the first session carrying `token`, if any.
    fn find(&self, token: &str) -> (r: Option<usize>)
        ensures
            match r {
                Some(i) => {
                    &&& 0 <= i < self@.len()
                    &&& self@[i as int].0 == token@
                    &&& forall|j: int| 0 <= j < i ==> self@[j].0 != token@
                },
                None => forall|j: int| 0 <= j < self@.len() ==> self@[j].0 != token@,
            },
    {
        let n: usize = self.sessions.len();
        let mut i: usize = 0;
        while i < n
            invariant
                n == self.sessions@.len(),
                self@.len() == n,
                0 <= i <= n,
                forall|j: int| 0 <= j < i ==> self@[j].0 != token@,
            decreases n - i,
        {
            assert(self@[i as int].0 == self.sessions@[i as int].token_spec());
            if str_eq(self.sessions[i].token.as_str(), token) {
                return Some(i);
            }
            i = i + 1;
        }
        None
    }

    /// Issues a session: draws a fresh 48-character alphanumeric token,
    /// records it with the current clock reading, and returns it.
    pub fn generate(&mut self) -> (t: String)
        ensures
            t@.len() == 48,
            forall|i: int| 0 <= i < t@.len() ==> is_alnum_char(t@[i]),
            exists|now: u64| final(self)@ == old(self)@.push((t@, now)),
            final(self).ttl_spec() == old(self).ttl_spec(),
    {
        let now = now_ms();
        let t = self.generate_at(now);
        proof {
            assert(final(self)@ == old(self)@.push((t@, now)));
        }
        t
    }

    /// Issues a session as [`Self::generate`] does, recording `now` as its
    /// creation time.
    pub fn generate_at(&mut self, now: u64) -> (t: String)
        ensures
            t@.len() == 48,
            forall|i: int| 0 <= i < t@.len() ==> is_alnum_char(t@[i]),
            final(self)@ == old(self)@.push((t@, now)),
            final(self).ttl_spec() == old(self).ttl_spec(),
    {
        let t = random_alnum(48);
        let s = Session::new_at(t.as_str(), now);
        self.sessions.push(s);
        proof {
            assert(final(self)@ =~= old(self)@.push((t@, now)));
        }
        t
    }

    /// Checks whether `token` names a live session at the current clock
    /// reading, evicting it if its time-to-live has elapsed.
    pub fn check(&mut self, token: &str) -> (r: bool)
        ensures
            exists|now: u64|
                checked(old(self)@, final(self)@, token@, now, old(self).ttl_spec(), r),
            final(self).ttl_spec() == old(self).ttl_spec(),
    {
        let now = now_ms();
        let r = self.check_at(token, now);
        proof {
            assert(checked(old(self)@, final(self)@, token@, now, old(self).ttl_spec(), r));
        }
        r
    }

    /// Checks whether `token` names a session live at time `now`: `false`
    /// for an absent token; for the first session carrying the token,
    /// `false` with the session evicted when more than the time-to-live has
    /// elapsed from its creation to `now`, and `true` with nothing changed
    /// otherwise.
    pub fn check_at(&mut self, token: &str, now: u64) -> (r: bool)
        ensures
            checked(old(self)@, final(self)@, token@, now, old(self).ttl_spec(), r),
            final(self).ttl_spec() == old(self).ttl_spec(),
    {
        let idx = match self.find(token) {
            Some(i) => i,
            None => {
                return false;
            },
        };
        let created: u64 = self.sessions[idx].created_ms;
        proof {
            assert(old(self)@[idx as int].1 == created);
            assert(has_token(old(self)@, token@));
        }
        let is_expired = if now >= created {
            now - created > self.ttl_ms
        } else {
            false
        };
        if is_expired {
            self.sessions.remove(idx);
            proof {
                assert(final(self)@ =~= old(self)@.remove(idx as int));
            }
            return false;
        }
        proof {
            let i = idx as int;
            assert(0 <= i < old(self)@.len() && old(self)@[i].0 == token@ && (forall|j: int|
                0 <= j < i ==> old(self)@[j].0 != token@) && !expired(
                old(self)@[i].1,
                now,
                old(self).ttl_spec(),
            ) && final(self)@ == old(self)@);
        }
        true
    }

    /// Drops the first session carrying `token`; nothing happens, and no
    /// error is reported, when no session carries it.
    pub fn remove(&mut self, token: &str)
        ensures
            !has_token(old(self)@, token@) ==> final(self)@ == old(self)@,
            has_token(old(self)@, token@) ==> exists|i: int|
                {
                    &&& 0 <= i < old(self)@.len()
                    &&& old(self)@[i].0 == token@
                    &&& (forall|j: int| 0 <= j < i ==> old(self)@[j].0 != token@)
                    &&& final(self)@ == old(self)@.remove(i)
                },
            final(self).ttl_spec() == old(self).ttl_spec(),
    {
        let idx = match self.find(token) {
            Some(i) => i,
            None => {
                return;
            },
        };
        self.sessions.remove(idx);
        proof {
            assert(final(self)@ =~= old(self)@.remove(idx as int));
        }
    }
}

} // verus!
