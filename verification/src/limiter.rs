//! Sliding-window admission control: rules, counter keys, the atomic
//! check-and-increment the remote store performs, and the bypass path.

use vstd::prelude::*;
use vstd::string::*;
use crate::envelope::{
    base64_of, envelope_eq, hmac_hex_of, spec_envelope_json, spec_payload_of, spec_sealed,
    spec_sig_of, spec_split_ok, SignedContent,
};

verus! {

/// One configured rule: a path prefix (or exact path when `strict`), an
/// optional per-client-IP scope, and a quota of `permits` per `interval_sec`.
#[derive(Clone, Debug)]
pub struct RateLimiter {
    pub path: String,
    pub scope_ip: bool,
    pub strict: bool,
    pub interval_sec: u32,
    pub permits: u32,
}

/// The ordered rule list and the secret of the bypass envelope.
#[derive(Clone, Debug)]
pub struct RateLimitConfig {
    pub limiters: Vec<RateLimiter>,
    pub forward_key_secret: String,
}

pub open spec fn spec_starts_with(s: Seq<char>, pre: Seq<char>) -> bool {
    pre.len() <= s.len() && s.subrange(0, pre.len() as int) == pre
}

/// A `strict` rule applies on exact path equality, a loose one on prefix.
pub open spec fn spec_rule_matches(rule: RateLimiter, path: Seq<char>) -> bool {
    if rule.strict {
        path == rule.path@
    } else {
        spec_starts_with(path, rule.path@)
    }
}

/// Character-for-character equality of two strings.
pub fn str_eq(a: &str, b: &str) -> (r: bool)
    ensures
        r == (a@ == b@),
{
    let an = a.unicode_len();
    let bn = b.unicode_len();
    if an != bn {
        return false;
    }
    let mut i: usize = 0;
    while i < an
        invariant
            0 <= i <= an == a@.len(),
            a@.len() == b@.len(),
            forall|j: int| 0 <= j < i ==> a@[j] == b@[j],
        decreases an - i,
    {
        if a.get_char(i) != b.get_char(i) {
            return false;
        }
        i += 1;
    }
    proof {
        assert(a@ =~= b@);
    }
    true
}

/// Whether `pre` is a prefix of `s`.
pub fn str_starts_with(s: &str, pre: &str) -> (r: bool)
    ensures
        r == spec_starts_with(s@, pre@),
{
    let sn = s.unicode_len();
    let pn = pre.unicode_len();
    if pn > sn {
        return false;
    }
    let mut i: usize = 0;
    while i < pn
        invariant
            0 <= i <= pn == pre@.len(),
            pre@.len() <= s@.len(),
            forall|j: int| 0 <= j < i ==> s@[j] == pre@[j],
        decreases pn - i,
    {
        if s.get_char(i) != pre.get_char(i) {
            proof {
                assert(s@.subrange(0, pre@.len() as int)[i as int] != pre@[i as int]);
            }
            return false;
        }
        i += 1;
    }
    proof {
        assert(s@.subrange(0, pre@.len() as int) =~= pre@);
    }
    true
}

/// Whether the rule applies to the request path.
pub fn rule_matches(rule: &RateLimiter, path: &str) -> (r: bool)
    ensures
        r == spec_rule_matches(*rule, path@),
{
    if rule.strict {
        str_eq(path, rule.path.as_str())
    } else {
        str_starts_with(path, rule.path.as_str())
    }
}

/// The identity of a rule's counter in the remote store.
pub open spec fn spec_limiter_key(rule: RateLimiter, ip: Seq<char>) -> Seq<char> {
    if rule.scope_ip {
        "gateway:rate_limiter:"@ + "ip:"@ + ip + ":"@ + rule.path@
    } else {
        "gateway:rate_limiter:"@ + rule.path@
    }
}

pub fn build_limiter_key(limiter: &RateLimiter, ip: &str) -> (r: String)
    ensures
        r@ == spec_limiter_key(*limiter, ip@),
{
    let mut key = String::from_str("gateway:rate_limiter:");
    if limiter.scope_ip {
        key.append("ip:");
        key.append(ip);
        key.append(":");
    }
    key.append(limiter.path.as_str());
    key
}

/// Admissions granted with a timestamp in the half-open window `(lo, hi]`.
pub open spec fn count_in(s: Seq<int>, lo: int, hi: int) -> int
    decreases s.len(),
{
    if s.len() == 0 {
        0
    } else {
        count_in(s.drop_last(), lo, hi) + if lo < s.last() <= hi {
            1int
        } else {
            0int
        }
    }
}

/// The entries strictly newer than `cut`, in order.
pub open spec fn trim(s: Seq<int>, cut: int) -> Seq<int>
    decreases s.len(),
{
    if s.len() == 0 {
        Seq::empty()
    } else if s.last() > cut {
        trim(s.drop_last(), cut).push(s.last())
    } else {
        trim(s.drop_last(), cut)
    }
}

pub open spec fn all_le(s: Seq<int>, h: int) -> bool {
    forall|i: int| 0 <= i < s.len() ==> s[i] <= h
}

proof fn lemma_trim_len_count(s: Seq<int>, cut: int, h: int)
    requires
        all_le(s, h),
    ensures
        trim(s, cut).len() == count_in(s, cut, h),
    decreases s.len(),
{
    if s.len() > 0 {
        assert(all_le(s.drop_last(), h)) by {
            assert(forall|i: int|
                0 <= i < s.drop_last().len() ==> s.drop_last()[i] == s[i] && s[i] <= h);
        }
        lemma_trim_len_count(s.drop_last(), cut, h);
    }
}

proof fn lemma_trim_trim(s: Seq<int>, c1: int, c2: int)
    requires
        c1 <= c2,
    ensures
        trim(trim(s, c1), c2) == trim(s, c2),
    decreases s.len(),
{
    if s.len() > 0 {
        lemma_trim_trim(s.drop_last(), c1, c2);
        if s.last() > c1 {
            let t = trim(s.drop_last(), c1).push(s.last());
            assert(t.drop_last() =~= trim(s.drop_last(), c1));
            assert(t.last() == s.last());
        }
    }
}

proof fn lemma_count_push(s: Seq<int>, x: int, lo: int, hi: int)
    ensures
        count_in(s.push(x), lo, hi) == count_in(s, lo, hi) + if lo < x <= hi {
            1int
        } else {
            0int
        },
{
    assert(s.push(x).drop_last() =~= s);
    assert(s.push(x).last() == x);
}

proof fn lemma_count_mono(s: Seq<int>, h: int, lo: int, hi: int, lo2: int, hi2: int)
    requires
        all_le(s, h),
        lo2 <= lo,
        h <= hi2,
    ensures
        count_in(s, lo, hi) <= count_in(s, lo2, hi2),
    decreases s.len(),
{
    if s.len() > 0 {
        assert(all_le(s.drop_last(), h)) by {
            assert(forall|i: int|
                0 <= i < s.drop_last().len() ==> s.drop_last()[i] == s[i] && s[i] <= h);
        }
        lemma_count_mono(s.drop_last(), h, lo, hi, lo2, hi2);
        assert(s.last() <= h);
    }
}

/// Admissions in the window of length `window` ending at `t`.
pub open spec fn window_count(grants: Seq<int>, window: int, t: int) -> int {
    count_in(grants, t - window, t)
}

pub open spec fn ints_of(s: Seq<i64>) -> Seq<int> {
    s.map_values(|e: i64| e as int)
}

/// The state one sliding-window counter goes through: the stored entries are
/// exactly the grant timestamps still inside the latest window, and no window
/// of the configured length ever holds more than `max` grants.
pub struct PermitWindow {
    pub entries: Vec<i64>,
    pub window: u32,
    pub max: u32,
    /// Every admission ever granted, in order of grant time.
    pub grants: Ghost<Seq<int>>,
    /// The latest store time observed.
    pub high: Ghost<int>,
}

impl PermitWindow {
    pub open spec fn wf(self) -> bool {
        &&& self.window >= 1
        &&& 0 <= self.high@
        &&& all_le(self.grants@, self.high@)
        &&& ints_of(self.entries@) == trim(self.grants@, self.high@ - self.window)
        &&& forall|t: int| #[trigger] window_count(self.grants@, self.window as int, t)
            <= self.max as int
    }

    pub fn new(window: u32, max: u32) -> (r: PermitWindow)
        requires
            window >= 1,
        ensures
            r.wf(),
            r.grants@ == Seq::<int>::empty(),
            r.window == window,
            r.max == max,
            r.high@ == 0,
    {
        let r = PermitWindow {
            entries: Vec::new(),
            window,
            max,
            grants: Ghost(Seq::empty()),
            high: Ghost(0),
        };
        proof {
            assert(ints_of(r.entries@) =~= trim(r.grants@, r.high@ - r.window));
            assert(forall|t: int|
                #[trigger] window_count(r.grants@, r.window as int, t) == 0);
        }
        r
    }

    /// One atomic check-and-increment at store time `now`: discard entries at
    /// or before `now - window`, grant and record the admission if fewer than
    /// `max` remain, deny otherwise.
    pub fn try_acquire(&mut self, now: i64) -> (granted: bool)
        requires
            old(self).wf(),
            old(self).high@ <= now,
        ensures
            final(self).wf(),
            granted == (count_in(old(self).grants@, now - old(self).window, now as int) < old(
                self,
            ).max as int),
            granted ==> final(self).grants@ == old(self).grants@.push(now as int),
            !granted ==> final(self).grants@ == old(self).grants@,
            final(self).window == old(self).window,
            final(self).max == old(self).max,
            final(self).high@ == now as int,
    {
        let ghost g0 = self.grants@;
        let ghost h0 = self.high@;
        let cutoff: i64 = now - (self.window as i64);
        let mut kept: Vec<i64> = Vec::new();
        let n = self.entries.len();
        let mut idx: usize = 0;
        proof {
            assert(ints_of(kept@) =~= trim(ints_of(self.entries@.take(0)), cutoff as int));
        }
        while idx < n
            invariant
                0 <= idx <= n,
                n == self.entries@.len(),
                cutoff == now - self.window,
                ints_of(kept@) == trim(ints_of(self.entries@.take(idx as int)), cutoff as int),
            decreases n - idx,
        {
            let e = self.entries[idx];
            proof {
                let pre = ints_of(self.entries@.take(idx as int));
                let cur = ints_of(self.entries@.take(idx as int + 1));
                assert(cur.drop_last() =~= pre);
                assert(cur.last() == e as int);
            }
            if e > cutoff {
                let ghost kpre = ints_of(kept@);
                kept.push(e);
                proof {
                    assert(ints_of(kept@) =~= kpre.push(e as int));
                }
            }
            idx += 1;
        }
        proof {
            assert(self.entries@.take(n as int) =~= self.entries@);
            assert(h0 - self.window <= cutoff as int);
            lemma_trim_trim(g0, h0 - self.window, cutoff as int);
            lemma_trim_len_count(g0, cutoff as int, h0);
            lemma_count_mono(g0, h0, cutoff as int, h0 as int, cutoff as int, now as int);
            lemma_count_mono(g0, h0, cutoff as int, now as int, cutoff as int, h0 as int);
            assert(count_in(g0, cutoff as int, h0) == count_in(g0, cutoff as int, now as int));
        }
        let ghost kept_ints = ints_of(kept@);
        self.entries = kept;
        let count = self.entries.len();
        if count < self.max as usize {
            self.entries.push(now);
            self.grants = Ghost(g0.push(now as int));
            self.high = Ghost(now as int);
            proof {
                let g1 = g0.push(now as int);
                assert(ints_of(self.entries@) =~= kept_ints.push(now as int));
                assert(g1.drop_last() =~= g0);
                assert(trim(g1, cutoff as int) == trim(g0, cutoff as int).push(now as int));
                assert(all_le(g1, now as int)) by {
                    assert(forall|i: int| 0 <= i < g0.len() ==> g1[i] == g0[i] && g0[i] <= h0);
                }
                assert forall|t: int|
                    #[trigger] window_count(g1, self.window as int, t) <= self.max as int by {
                    lemma_count_push(g0, now as int, t - self.window, t);
                    if t - self.window < now as int <= t {
                        assert(window_count(g0, self.window as int, now as int) <= self.max as int);
                        lemma_count_mono(
                            g0,
                            h0,
                            t - self.window,
                            t,
                            now - self.window,
                            now as int,
                        );
                    } else {
                        assert(window_count(g0, self.window as int, t) <= self.max as int);
                    }
                }
            }
            true
        } else {
            self.high = Ghost(now as int);
            proof {
                assert(all_le(g0, now as int));
            }
            false
        }
    }
}

/// Quota bound: in any rolling window of the configured length, ending at any
/// instant `t`, at most `max` admissions have been granted.
pub proof fn lemma_quota_bound(w: PermitWindow, t: int)
    requires
        w.wf(),
    ensures
        count_in(w.grants@, t - w.window, t) <= w.max as int,
{
    assert(window_count(w.grants@, w.window as int, t) <= w.max as int);
}

/// The marker the atomicity script returns for a granted permit.
pub const ACQUIRE_PERMITTED: i64 = 1;

/// Fail-closed reading of the store's reply: only a completed script run that
/// returned the grant marker admits; an unreachable store or script denies.
pub fn permit_granted(reply: Option<i64>) -> (r: bool)
    ensures
        r == (reply == Some(ACQUIRE_PERMITTED)),
{
    match reply {
        Some(v) => v == ACQUIRE_PERMITTED,
        None => false,
    }
}

/// What the engine asks for next while walking the rules in declared order.
#[derive(Debug, PartialEq, Eq, Structural)]
pub enum LimiterStep {
    /// No rule at or after the given index applies: the request is admitted.
    Admit,
    /// The rule at this index applies and a permit must be acquired for it.
    Acquire(usize),
}

/// The first rule at or after `start` that applies to `path`.
///
/// Rules are evaluated strictly in declaration order; the caller acquires a
/// permit for the returned rule and comes back with `start` one past it, or
/// denies the request on the first permit refusal.
pub fn next_matching_rule(config: &RateLimitConfig, path: &str, start: usize) -> (r: LimiterStep)
    requires
        start <= config.limiters@.len(),
    ensures
        r matches LimiterStep::Acquire(i) ==> start <= i < config.limiters@.len()
            && spec_rule_matches(config.limiters@[i as int], path@) && forall|j: int|
            start <= j < i ==> !spec_rule_matches(config.limiters@[j], path@),
        r == LimiterStep::Admit ==> forall|j: int|
            start <= j < config.limiters@.len() ==> !spec_rule_matches(config.limiters@[j], path@),
{
    let n = config.limiters.len();
    let mut i = start;
    while i < n
        invariant
            start <= i <= n == config.limiters@.len(),
            forall|j: int| start <= j < i ==> !spec_rule_matches(config.limiters@[j], path@),
        decreases n - i,
    {
        if rule_matches(&config.limiters[i], path) {
            return LimiterStep::Acquire(i);
        }
        i += 1;
    }
    LimiterStep::Admit
}

/// A sealed bypass envelope that admits the request: well-signed under the
/// forward secret, not yet expired, and naming exactly the request path.
pub open spec fn spec_is_bypass_for(
    signed: Seq<u8>,
    e: SignedContent,
    secret: Seq<u8>,
    path: Seq<char>,
    now: int,
) -> bool {
    &&& signed == spec_sealed(spec_envelope_json(e), secret)
    &&& e.content@ == path
    &&& now < e.signed_at + e.expire
}

/// Whether a presented forward key admits the request for `path`.
///
/// Every envelope sealed under the secret, unexpired and naming the path is
/// accepted, and stays usable until it expires: no single-use consumption is
/// enforced. An accepted key always carries a valid signature; one sealed for
/// another path, or already expired, or carrying a wrong signature, is denied.
pub fn test_forward_key(forward_key: &str, path: &str, secret: &str, now: i64) -> (r: bool)
    ensures
        r ==> exists|p: Seq<u8>|
            forward_key.spec_bytes() == spec_sealed(p, secret.spec_bytes()),
        forall|e: SignedContent|
            spec_is_bypass_for(forward_key.spec_bytes(), e, secret.spec_bytes(), path@, now as int)
                ==> r,
        forall|e: SignedContent|
            forward_key.spec_bytes() == spec_sealed(spec_envelope_json(e), secret.spec_bytes())
                && (e.content@ != path@ || now >= e.signed_at + e.expire) ==> !r,
        forall|v: Seq<u8>|
            forward_key.spec_bytes() == base64_of(v) && spec_split_ok(v) && spec_sig_of(v)
                != hmac_hex_of(secret.spec_bytes(), spec_payload_of(v)) ==> !r,
{
    let parsed = SignedContent::parse(forward_key, secret, now);
    match parsed {
        Ok(envelope) => {
            let admitted = str_eq(envelope.content.as_str(), path);
            proof {
                assert forall|e: SignedContent|
                    forward_key.spec_bytes() == spec_sealed(
                        spec_envelope_json(e),
                        secret.spec_bytes(),
                    ) && (e.content@ != path@ || now >= e.signed_at + e.expire) implies !admitted by {
                    if now as int >= e.signed_at + e.expire {
                        assert(parsed == Err::<SignedContent, crate::envelope::EnvelopeError>(
                            crate::envelope::EnvelopeError::Expired,
                        ));
                    } else {
                        assert(envelope_eq(envelope, e));
                    }
                }
            }
            admitted
        },
        Err(_) => false,
    }
}

/// The rate limiter's verdict for one request.
#[derive(Debug, PartialEq, Eq, Structural)]
pub enum RateGate {
    /// A bypass key was presented and admits the request; no rule is evaluated.
    Admit,
    /// A bypass key was presented and does not admit the request.
    Deny,
    /// No bypass key: the rules are to be evaluated in order.
    Evaluate,
}

/// The bypass header, when present, is the sole determinant of admission:
/// the rules are never consulted, whatever any counter holds. A valid,
/// unexpired envelope naming the path admits; one naming another path, or
/// expired, or wrongly signed, denies without falling back to the rules.
pub fn rate_limit_gate(forward_key: Option<&str>, path: &str, secret: &str, now: i64) -> (r:
    RateGate)
    ensures
        forward_key is None <==> r == RateGate::Evaluate,
        forward_key matches Some(k) ==> (r == RateGate::Admit ==> exists|p: Seq<u8>|
            k.spec_bytes() == spec_sealed(p, secret.spec_bytes())),
        forward_key matches Some(k) ==> forall|e: SignedContent|
            spec_is_bypass_for(k.spec_bytes(), e, secret.spec_bytes(), path@, now as int) ==> r
                == RateGate::Admit,
        forward_key matches Some(k) ==> forall|e: SignedContent|
            k.spec_bytes() == spec_sealed(spec_envelope_json(e), secret.spec_bytes()) && (
            e.content@ != path@ || now >= e.signed_at + e.expire) ==> r == RateGate::Deny,
        forward_key matches Some(k) ==> forall|v: Seq<u8>|
            k.spec_bytes() == base64_of(v) && spec_split_ok(v) && spec_sig_of(v) != hmac_hex_of(
                secret.spec_bytes(),
                spec_payload_of(v),
            ) ==> r == RateGate::Deny,
{
    match forward_key {
        None => RateGate::Evaluate,
        Some(k) => {
            let admitted = test_forward_key(k, path, secret, now);
            proof {
                assert forall|e: SignedContent|
                    spec_is_bypass_for(k.spec_bytes(), e, secret.spec_bytes(), path@, now as int)
                    implies admitted by {}
                assert forall|e: SignedContent|
                    k.spec_bytes() == spec_sealed(spec_envelope_json(e), secret.spec_bytes()) && (
                    e.content@ != path@ || now >= e.signed_at + e.expire) implies !admitted by {}
            }
            if admitted {
                RateGate::Admit
            } else {
                RateGate::Deny
            }
        },
    }
}

} // verus!
