//! One-time verification codes and the bearer tokens of an account.

use crate::email::Email;
use rand::distributions::{Alphanumeric, DistString};
use rand::Rng;
use vstd::prelude::*;

verus! {

/// Seconds for which a verification code stays valid: fifteen minutes.
pub const CODE_LIFETIME: i64 = 900;

/// Seconds in a day.
pub const DAY: i64 = 86400;

/// Smallest verification code.
pub const CODE_MIN: u32 = 100000;

/// First value above the verification codes.
pub const CODE_END: u32 = 999999;

/// Length of a token, in characters.
pub const TOKEN_LENGTH: usize = 32;

/// Calls `gen_range` of `rand` on the thread's generator with the half-open
/// range from `low` to `end`, which must not be empty. The contract states
/// the range only: which value is drawn is up to chance.
#[verifier::external_body]
fn random_between(low: u32, end: u32) -> (value: u32)
    requires
        low < end,
    ensures
        low <= value < end,
{
    rand::thread_rng().gen_range(low..end)
}

/// Calls `Alphanumeric.sample_string` of `rand` on the thread's generator,
/// which makes a text of `length` random characters. The contract states the
/// length only.
#[verifier::external_body]
fn random_text(length: usize) -> (text: String)
    ensures
        text@.len() == length,
{
    Alphanumeric.sample_string(&mut rand::thread_rng(), length)
}

/// A verification code drawn at random.
pub fn random_code() -> (code: u32)
    ensures
        CODE_MIN <= code < CODE_END,
{
    random_between(CODE_MIN, CODE_END)
}

/// A pending verification: the address, the code that was mailed to it, and
/// the moment from which the code is no longer accepted.
#[derive(Debug)]
pub struct Context {
    /// The address the code was sent to.
    pub email: Email,
    /// The one-time code.
    pub code: u32,
    /// Seconds since the epoch from which the code is expired.
    pub expire_time: i64,
}

impl Context {
    /// Whether the code is expired at `now`.
    pub open spec fn spec_is_expired(self, now: i64) -> bool {
        now >= self.expire_time
    }

    /// A context for `email` with the given code, valid for fifteen minutes
    /// from `now`. `None` exactly where that moment is out of range.
    pub fn create(email: Email, code: u32, now: i64) -> (r: Option<Context>)
        ensures
            r is Some <==> now + CODE_LIFETIME <= i64::MAX,
            r matches Some(c) ==> c.email == email && c.code == code && c.expire_time == now
                + CODE_LIFETIME,
    {
        match now.checked_add(CODE_LIFETIME) {
            Some(expire_time) => Some(Context { email, code, expire_time }),
            None => None,
        }
    }

    /// Whether the code is expired at `now`: true from `expire_time` on.
    pub fn is_expired(&self, now: i64) -> (r: bool)
        ensures
            r == self.spec_is_expired(now),
    {
        now >= self.expire_time
    }

    /// Whether `code` is the stored code. Says nothing of expiry.
    pub fn matches(&self, code: u32) -> (r: bool)
        ensures
            r == (self.code == code),
    {
        self.code == code
    }
}

/// One issued token.
#[derive(Debug)]
pub struct Token {
    /// The opaque text that the bearer presents.
    pub value: String,
    /// Identity of the account it was issued to.
    pub owner: u64,
    /// Seconds since the epoch at which it was issued.
    pub issued: i64,
    /// Seconds since the epoch from which it is expired; `None`: never.
    pub expires: Option<i64>,
}

impl Token {
    /// Whether the token is expired at `now`.
    pub open spec fn spec_is_expired(self, now: i64) -> bool {
        match self.expires {
            Some(at) => now >= at,
            None => false,
        }
    }

    /// Whether the token is expired at `now`; one that never expires is not.
    pub fn is_expired(&self, now: i64) -> (r: bool)
        ensures
            r == self.spec_is_expired(now),
    {
        match self.expires {
            Some(at) => now >= at,
            None => false,
        }
    }
}

/// The entries of `s` whose text is not `t`, in their order.
pub open spec fn without(s: Seq<Token>, t: Seq<char>) -> Seq<Token>
    decreases s.len(),
{
    if s.len() == 0 {
        s
    } else if s.last().value@ == t {
        without(s.drop_last(), t)
    } else {
        without(s.drop_last(), t).push(s.last())
    }
}

/// The entries of `s` that are not expired at `now`, in their order.
pub open spec fn live(s: Seq<Token>, now: i64) -> Seq<Token>
    decreases s.len(),
{
    if s.len() == 0 {
        s
    } else if s.last().spec_is_expired(now) {
        live(s.drop_last(), now)
    } else {
        live(s.drop_last(), now).push(s.last())
    }
}

/// Whether some entry of `s` has the text `t`.
pub open spec fn holds(s: Seq<Token>, t: Seq<char>) -> bool {
    exists|i: int| 0 <= i < s.len() && (#[trigger] s[i]).value@ == t
}

/// No two entries of `s` have the same text.
pub open spec fn distinct(s: Seq<Token>) -> bool {
    forall|i: int, j: int|
        0 <= i < j < s.len() ==> (#[trigger] s[i]).value@ != (#[trigger] s[j]).value@
}

/// The moment at which a token issued at `now` for `days` days expires.
pub open spec fn deadline(now: i64, days: u16) -> int {
    now + days * DAY
}

/// The expiry of a token issued at `now` for `days` days: none for 0 days.
pub open spec fn expiry(now: i64, days: u16) -> Option<i64> {
    if days == 0 {
        None
    } else {
        Some(deadline(now, days) as i64)
    }
}

/// Removing `t` leaves exactly the other texts.
pub proof fn lemma_without_holds(s: Seq<Token>, t: Seq<char>, u: Seq<char>)
    ensures
        holds(without(s, t), u) <==> (u != t && holds(s, u)),
    decreases s.len(),
{
    if s.len() == 0 {
    } else {
        let p = s.drop_last();
        lemma_without_holds(p, t, u);
        let w = without(s, t);
        if holds(w, u) {
            let i = choose|i: int| 0 <= i < w.len() && (#[trigger] w[i]).value@ == u;
            if s.last().value@ != t && i == w.len() - 1 {
                assert(s[s.len() - 1].value@ == u);
            } else {
                assert(holds(without(p, t), u));
                let k = choose|k: int| 0 <= k < p.len() && (#[trigger] p[k]).value@ == u;
                assert(s[k].value@ == u);
            }
        }
        if u != t && holds(s, u) {
            let i = choose|i: int| 0 <= i < s.len() && (#[trigger] s[i]).value@ == u;
            if i == s.len() - 1 {
                assert(w[w.len() - 1].value@ == u);
            } else {
                assert(p[i].value@ == u);
                assert(holds(without(p, t), u));
                let wp = without(p, t);
                let k = choose|k: int| 0 <= k < wp.len() && (#[trigger] wp[k]).value@ == u;
                assert(w[k].value@ == u);
            }
        }
    }
}

/// Removing a text that is not there removes nothing.
pub proof fn lemma_without_absent(s: Seq<Token>, t: Seq<char>)
    requires
        !holds(s, t),
    ensures
        without(s, t) == s,
    decreases s.len(),
{
    if s.len() > 0 {
        let p = s.drop_last();
        assert(s[s.len() - 1].value@ != t);
        assert forall|i: int| 0 <= i < p.len() implies (#[trigger] p[i]).value@ != t by {
            assert(s[i].value@ != t);
        }
        lemma_without_absent(p, t);
        assert(p.push(s.last()) == s);
    }
}

/// Removing a text keeps the remaining texts distinct.
pub proof fn lemma_without_distinct(s: Seq<Token>, t: Seq<char>)
    requires
        distinct(s),
    ensures
        distinct(without(s, t)),
    decreases s.len(),
{
    if s.len() > 0 {
        let p = s.drop_last();
        assert forall|i: int, j: int| 0 <= i < j < p.len() implies (#[trigger] p[i]).value@ != (
        #[trigger] p[j]).value@ by {
            assert(s[i].value@ != s[j].value@);
        }
        lemma_without_distinct(p, t);
        let wp = without(p, t);
        let w = without(s, t);
        if s.last().value@ != t {
            assert forall|i: int, j: int| 0 <= i < j < w.len() implies (#[trigger] w[i]).value@ != (
            #[trigger] w[j]).value@ by {
                if j == w.len() - 1 {
                    assert(wp[i].value@ == w[i].value@);
                    if w[i].value@ == s.last().value@ {
                        assert(holds(wp, s.last().value@));
                        lemma_without_holds(p, t, s.last().value@);
                        let k = choose|k: int|
                            0 <= k < p.len() && (#[trigger] p[k]).value@ == s.last().value@;
                        assert(s[k].value@ == s[s.len() - 1].value@);
                    }
                } else {
                    assert(wp[i].value@ != wp[j].value@);
                }
            }
        }
    }
}

/// A text is among `s` with `e` appended exactly if it is that of `e` or among `s`.
pub proof fn lemma_holds_push(s: Seq<Token>, e: Token, t: Seq<char>)
    ensures
        holds(s.push(e), t) <==> (e.value@ == t || holds(s, t)),
{
    let p = s.push(e);
    if holds(p, t) {
        let i = choose|i: int| 0 <= i < p.len() && (#[trigger] p[i]).value@ == t;
        if i < s.len() {
            assert(s[i].value@ == t);
        }
    }
    if e.value@ == t {
        assert(p[s.len() as int].value@ == t);
    }
    if holds(s, t) {
        let i = choose|i: int| 0 <= i < s.len() && (#[trigger] s[i]).value@ == t;
        assert(p[i].value@ == t);
    }
}

/// Every live entry of `s` is an entry of `s`.
pub proof fn lemma_live_holds(s: Seq<Token>, now: i64, t: Seq<char>)
    ensures
        holds(live(s, now), t) ==> holds(s, t),
    decreases s.len(),
{
    if s.len() > 0 {
        let p = s.drop_last();
        lemma_live_holds(p, now, t);
        assert(s == p.push(s.last()));
        lemma_holds_push(p, s.last(), t);
        lemma_holds_push(live(p, now), s.last(), t);
    }
}

/// Dropping the expired entries keeps the remaining texts distinct.
pub proof fn lemma_live_distinct(s: Seq<Token>, now: i64)
    requires
        distinct(s),
    ensures
        distinct(live(s, now)),
    decreases s.len(),
{
    if s.len() > 0 {
        let p = s.drop_last();
        assert forall|i: int, j: int| 0 <= i < j < p.len() implies (#[trigger] p[i]).value@ != (
        #[trigger] p[j]).value@ by {
            assert(s[i].value@ != s[j].value@);
        }
        lemma_live_distinct(p, now);
        let lp = live(p, now);
        let l = live(s, now);
        if !s.last().spec_is_expired(now) {
            assert forall|i: int, j: int| 0 <= i < j < l.len() implies (#[trigger] l[i]).value@ != (
            #[trigger] l[j]).value@ by {
                if j == l.len() - 1 {
                    assert(lp[i].value@ == l[i].value@);
                    if l[i].value@ == s.last().value@ {
                        assert(holds(lp, s.last().value@));
                        lemma_live_holds(p, now, s.last().value@);
                        let k = choose|k: int|
                            0 <= k < p.len() && (#[trigger] p[k]).value@ == s.last().value@;
                        assert(s[k].value@ == s[s.len() - 1].value@);
                    }
                } else {
                    assert(lp[i].value@ != lp[j].value@);
                }
            }
        }
    }
}

/// The tokens of one account, in the order in which they were issued.
#[derive(Debug)]
pub struct Tokens {
    entries: Vec<Token>,
}

impl View for Tokens {
    type V = Seq<Token>;

    closed spec fn view(&self) -> Seq<Token> {
        self.entries@
    }
}

impl Tokens {
    #[verifier::type_invariant]
    spec fn well_formed(self) -> bool {
        distinct(self.entries@)
    }

    /// An empty set of tokens.
    pub fn new() -> (r: Tokens)
        ensures
            r@ == Seq::<Token>::empty(),
    {
        Tokens { entries: Vec::new() }
    }

    /// Whether `token` is one of the tokens.
    pub fn contains(&self, token: &str) -> (r: bool)
        ensures
            r == holds(self@, token@),
    {
        let wanted = token.to_owned();
        let mut i: usize = 0;
        while i < self.entries.len()
            invariant
                wanted@ == token@,
                i <= self.entries@.len(),
                forall|k: int| 0 <= k < i ==> (#[trigger] self.entries@[k]).value@ != token@,
            decreases self.entries@.len() - i,
        {
            if self.entries[i].value == wanted {
                return true;
            }
            i += 1;
        }
        false
    }

    /// The tokens, in the order in which they were issued.
    pub fn entries(&self) -> (r: &Vec<Token>)
        ensures
            r@ == self@,
            distinct(r@),
    {
        proof {
            use_type_invariant(self);
        }
        &self.entries
    }

    /// Adds `token` as the newest entry. An earlier entry with the same text
    /// is replaced.
    pub fn insert(&mut self, token: Token)
        ensures
            final(self)@ == without(old(self)@, token.value@).push(token),
            holds(final(self)@, token.value@),
            distinct(final(self)@),
    {
        let _ = self.remove(token.value.as_str());
        proof {
            use_type_invariant(&*self);
            let kept = self.entries@;
            assert forall|i: int, j: int| 0 <= i < j < kept.len() + 1 implies (#[trigger] kept.push(
                token,
            )[i]).value@ != (#[trigger] kept.push(token)[j]).value@ by {
                if j == kept.len() {
                    assert(kept[i].value@ != token.value@);
                } else {
                    assert(kept[i].value@ != kept[j].value@);
                }
            }
            assert(kept.push(token)[kept.len() as int].value@ == token.value@);
        }
        let mut entries: Vec<Token> = Vec::new();
        std::mem::swap(&mut entries, &mut self.entries);
        entries.push(token);
        self.entries = entries;
    }

    /// Records `value` as a token of `owner`, issued at `now` and valid for
    /// `days` days (0: for ever). An earlier entry with the same text is
    /// replaced. Fails with `false`, changing nothing, exactly where the
    /// expiry would be out of range.
    pub fn issue(&mut self, value: String, owner: u64, now: i64, days: u16) -> (r: bool)
        ensures
            r == (days == 0 || deadline(now, days) <= i64::MAX),
            !r ==> *final(self) == *old(self),
            r ==> final(self)@ == without(old(self)@, value@).push(
                Token { value, owner, issued: now, expires: expiry(now, days) },
            ),
    {
        let expires: Option<i64> = if days == 0 {
            None
        } else {
            let span: i64 = (days as i64) * DAY;
            match now.checked_add(span) {
                Some(at) => Some(at),
                None => {
                    return false;
                },
            }
        };
        self.insert(Token { value, owner, issued: now, expires });
        true
    }

    /// Issues a fresh random token for `owner_id` at `now`, valid for
    /// `expiration_days` days (0: for ever), and returns it; `None`, changing
    /// nothing, exactly where the expiry would be out of range.
    pub fn new_token(&mut self, owner_id: u64, expiration_days: u16, now: i64) -> (r: Option<String>)
        ensures
            r is Some <==> (expiration_days == 0 || deadline(now, expiration_days) <= i64::MAX),
            r is None ==> *final(self) == *old(self),
            r matches Some(t) ==> {
                &&& final(self)@.len() > 0
                &&& final(self)@.drop_last() == without(old(self)@, t@)
                &&& final(self)@.last().value@ == t@
                &&& t@.len() == TOKEN_LENGTH
                &&& final(self)@.last().owner == owner_id
                &&& final(self)@.last().issued == now
                &&& final(self)@.last().expires == expiry(now, expiration_days)
                &&& holds(final(self)@, t@)
            },
    {
        let token = random_text(TOKEN_LENGTH);
        let copy = token.clone();
        if self.issue(token, owner_id, now, expiration_days) {
            proof {
                let pushed = without(old(self)@, copy@);
                assert(self@.drop_last() == pushed);
                assert(self@[self@.len() - 1].value@ == copy@);
            }
            Some(copy)
        } else {
            None
        }
    }

    /// Deletes `token` if it is there; returns whether it was.
    pub fn remove(&mut self, token: &str) -> (found: bool)
        ensures
            found == holds(old(self)@, token@),
            final(self)@ == without(old(self)@, token@),
            !holds(final(self)@, token@),
            distinct(final(self)@),
    {
        proof {
            use_type_invariant(&*self);
        }
        let wanted = token.to_owned();
        let ghost orig = self.entries@;
        let mut rest: Vec<Token> = Vec::new();
        std::mem::swap(&mut rest, &mut self.entries);
        let mut found = false;
        let mut i: usize = 0;
        let ghost mut j: int = 0;
        while i < rest.len()
            invariant
                wanted@ == token@,
                i <= rest@.len(),
                0 <= j <= orig.len(),
                rest@.len() - i == orig.len() - j,
                rest@.take(i as int) == without(orig.take(j), token@),
                rest@.skip(i as int) == orig.skip(j),
                found == holds(orig.take(j), token@),
            decreases rest@.len() - i,
        {
            let ghost before = rest@;
            proof {
                assert(orig.take(j + 1).drop_last() == orig.take(j));
                assert(before.skip(i as int)[0] == orig.skip(j)[0]);
                assert(before.skip(i as int).skip(1) == before.skip(i + 1));
                assert(orig.skip(j).skip(1) == orig.skip(j + 1));
                assert(orig.take(j + 1) == orig.take(j).push(orig[j]));
                lemma_holds_push(orig.take(j), orig[j], token@);
            }
            if rest[i].value == wanted {
                let _ = rest.remove(i);
                found = true;
                proof {
                    assert(rest@.take(i as int) == before.take(i as int));
                    assert(rest@.skip(i as int) == before.skip(i + 1));
                }
            } else {
                proof {
                    assert(before.take(i + 1) == before.take(i as int).push(before[i as int]));
                }
                i += 1;
            }
            proof {
                j = j + 1;
            }
        }
        proof {
            assert(orig.take(orig.len() as int) == orig);
            assert(rest@.take(i as int) == rest@);
            lemma_without_distinct(orig, token@);
            lemma_without_holds(orig, token@, token@);
        }
        self.entries = rest;
        found
    }

    /// Deletes every token that is expired at `now`; one that never expires
    /// stays.
    pub fn refresh(&mut self, now: i64)
        ensures
            final(self)@ == live(old(self)@, now),
            distinct(final(self)@),
    {
        proof {
            use_type_invariant(&*self);
        }
        let ghost orig = self.entries@;
        let mut rest: Vec<Token> = Vec::new();
        std::mem::swap(&mut rest, &mut self.entries);
        let mut i: usize = 0;
        let ghost mut j: int = 0;
        while i < rest.len()
            invariant
                i <= rest@.len(),
                0 <= j <= orig.len(),
                rest@.len() - i == orig.len() - j,
                rest@.take(i as int) == live(orig.take(j), now),
                rest@.skip(i as int) == orig.skip(j),
            decreases rest@.len() - i,
        {
            let ghost before = rest@;
            proof {
                assert(orig.take(j + 1).drop_last() == orig.take(j));
                assert(before.skip(i as int)[0] == orig.skip(j)[0]);
                assert(before.skip(i as int).skip(1) == before.skip(i + 1));
                assert(orig.skip(j).skip(1) == orig.skip(j + 1));
            }
            if rest[i].is_expired(now) {
                let _ = rest.remove(i);
                proof {
                    assert(rest@.take(i as int) == before.take(i as int));
                    assert(rest@.skip(i as int) == before.skip(i + 1));
                }
            } else {
                proof {
                    assert(before.take(i + 1) == before.take(i as int).push(before[i as int]));
                }
                i += 1;
            }
            proof {
                j = j + 1;
            }
        }
        proof {
            assert(orig.take(orig.len() as int) == orig);
            assert(rest@.take(i as int) == rest@);
            lemma_live_distinct(orig, now);
        }
        self.entries = rest;
    }
}

} // verus!
