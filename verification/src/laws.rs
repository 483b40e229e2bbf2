//! What holds of the transitions taken together.

use crate::account::{sha256_hex, Account, UserAttributes, UserVerifyVariant};
use crate::email::Email;
use crate::error::Error;
use crate::manager::{fresh, has_id, index_of, lemma_fresh_ids};
use crate::verify::{
    deadline, holds, lemma_without_absent, lemma_without_holds, without, Context, CODE_LIFETIME,
};
use vstd::prelude::*;

verus! {

/// A registered account is found under the identity of its address, at the
/// end of the registry, and is unverified.
pub proof fn law_registered_account_is_found(before: Seq<Account>, cxt: Context)
    requires
        before.len() < usize::MAX,
    ensures
        has_id(before.push(Account::Unverified(cxt)), cxt.email.spec_id()),
        index_of(before.push(Account::Unverified(cxt)))[cxt.email.spec_id()] == before.len(),
        before.push(Account::Unverified(cxt))[before.len() as int] is Unverified,
        before.push(Account::Unverified(cxt))[before.len() as int].spec_id()
            == cxt.email.spec_id(),
{
    let after = before.push(Account::Unverified(cxt));
    assert(after[before.len() as int].spec_id() == cxt.email.spec_id());
    assert(after.drop_last() == before);
}

/// Activation keeps the identity and the address, whatever address the
/// attributes carry.
pub proof fn law_activation_keeps_identity(
    before: Account,
    attributes: UserAttributes,
    after: Account,
)
    requires
        after.activated_from(before, attributes),
    ensures
        after is Verified,
        after.spec_id() == before.spec_id(),
        after.spec_email() == before.spec_email(),
{
}

/// A wrong code is refused with `VerificationCode`, at any moment.
pub proof fn law_wrong_code_is_refused(cxt: Context, code: u32, now: i64)
    requires
        code != cxt.code,
    ensures
        Account::Unverified(cxt).activate_result(code, now) == Err::<(), Error>(
            Error::VerificationCode,
        ),
{
}

/// An expired code is refused with `VerificationCode` even where it
/// matches, for activation and for a password reset.
pub proof fn law_expired_code_is_refused(cxt: Context, code: u32, now: i64, verified: Account)
    requires
        now >= cxt.expire_time,
        verified matches Account::Verified { verify: UserVerifyVariant::ForgetPassword(c), .. }
            && c == cxt,
    ensures
        Account::Unverified(cxt).activate_result(code, now) == Err::<(), Error>(
            Error::VerificationCode,
        ),
        verified.reset_result(code, now) == Err::<(), Error>(Error::VerificationCode),
{
}

/// An activated account refuses every further activation with
/// `UserRegistered`.
pub proof fn law_second_activation_fails(
    before: Account,
    after: Account,
    attributes: UserAttributes,
    code: u32,
    now: i64,
)
    requires
        after.activated_from(before, attributes),
    ensures
        after.activate_result(code, now) == Err::<(), Error>(Error::UserRegistered),
{
}

/// A token that a login issued is accepted by one logout, and by no second
/// one.
pub proof fn law_token_single_use(
    before: Account,
    logged_in: Account,
    logged_out: Account,
    token: Seq<char>,
    now: i64,
)
    requires
        logged_in.issued_from(before, token, now),
        logged_out.same_but_tokens(logged_in, without(logged_in.spec_tokens(), token)),
    ensures
        logged_in.logout_result(token) is Ok,
        logged_out.logout_result(token) == Err::<(), Error>(Error::TokenIncorrect),
{
    let tokens = logged_in.spec_tokens();
    assert(tokens[tokens.len() - 1].value@ == token);
    lemma_without_holds(tokens, token, token);
}

/// A logout of the token that a login issued leaves the tokens that were
/// there before the login, but for an earlier one of the same text, and
/// leaves the identity, the attributes and what is pending as they were.
pub proof fn law_logout_undoes_login(
    before: Account,
    logged_in: Account,
    logged_out: Account,
    token: Seq<char>,
    now: i64,
)
    requires
        logged_in.issued_from(before, token, now),
        logged_out.same_but_tokens(logged_in, without(logged_in.spec_tokens(), token)),
    ensures
        logged_out.spec_tokens() == without(before.spec_tokens(), token),
        !holds(before.spec_tokens(), token) ==> logged_out.same_but_tokens(
            before,
            before.spec_tokens(),
        ),
{
    let tokens = logged_in.spec_tokens();
    let kept = without(before.spec_tokens(), token);
    assert(tokens.drop_last() == kept);
    lemma_without_holds(before.spec_tokens(), token, token);
    lemma_without_absent(kept, token);
    if !holds(before.spec_tokens(), token) {
        lemma_without_absent(before.spec_tokens(), token);
    }
}

/// A registration made at `start` is stale exactly from fifteen minutes
/// after `start` on.
pub proof fn law_code_window(email: Email, code: u32, start: i64, now: i64)
    requires
        start + CODE_LIFETIME <= i64::MAX,
    ensures
        Account::Unverified(
            Context { email, code, expire_time: (start + CODE_LIFETIME) as i64 },
        ).spec_is_stale(now) <==> now >= start + CODE_LIFETIME,
{
}

/// A sweep at a moment at which no account is stale drops no account.
pub proof fn law_sweep_without_stale_keeps_all(s: Seq<Account>, now: i64)
    requires
        forall|i: int| 0 <= i < s.len() ==> !(#[trigger] s[i]).spec_is_stale(now),
    ensures
        fresh(s, now) == s,
    decreases s.len(),
{
    if s.len() > 0 {
        let p = s.drop_last();
        assert forall|i: int| 0 <= i < p.len() implies !(#[trigger] p[i]).spec_is_stale(now) by {
            assert(p[i] == s[i]);
        }
        law_sweep_without_stale_keeps_all(p, now);
        assert(!s[s.len() - 1].spec_is_stale(now));
        assert(p.push(s.last()) == s);
    }
}

/// The sweep keeps the identity of every account that is not stale, and
/// drops an identity that only stale accounts have.
pub proof fn law_sweep_keeps_and_drops(s: Seq<Account>, p: int, now: i64)
    requires
        0 <= p < s.len(),
    ensures
        !s[p].spec_is_stale(now) ==> has_id(fresh(s, now), s[p].spec_id()),
        (forall|i: int|
            0 <= i < s.len() && (#[trigger] s[i]).spec_id() == s[p].spec_id()
                ==> s[i].spec_is_stale(now)) ==> !has_id(fresh(s, now), s[p].spec_id()),
{
    lemma_fresh_ids(s, now, s[p].spec_id());
}

/// Without a pending request a password reset is refused with
/// `PermissionDenied`.
pub proof fn law_reset_needs_request(
    before: Account,
    activated: Account,
    attributes: UserAttributes,
    code: u32,
    now: i64,
)
    requires
        activated.activated_from(before, attributes),
    ensures
        activated.reset_result(code, now) == Err::<(), Error>(Error::PermissionDenied),
{
}

/// After a request and, within the fifteen minutes, a reset with the
/// requested code, a login with the new password succeeds wherever the
/// token's expiry is in range, and one with a password of another digest
/// fails with `PasswordIncorrect`.
pub proof fn law_reset_changes_password(
    before: Account,
    requested: Account,
    reset: Account,
    code: u32,
    new_password: Seq<char>,
    other_password: Seq<char>,
    requested_at: i64,
    reset_at: i64,
    now: i64,
)
    requires
        requested.requested_from(before, code, requested_at),
        reset_at < requested_at + CODE_LIFETIME,
        reset.reset_from(requested, new_password),
    ensures
        requested.reset_result(code, reset_at) is Ok,
        reset.login_result(new_password, now) == (if reset.spec_token_days() != 0 && deadline(
            now,
            reset.spec_token_days(),
        ) > i64::MAX {
            Err::<(), Error>(Error::DateOutOfRange)
        } else {
            Ok::<(), Error>(())
        }),
        sha256_hex(other_password) != sha256_hex(new_password) ==> reset.login_result(
            other_password,
            now,
        ) == Err::<(), Error>(Error::PasswordIncorrect),
{
}

/// An institutional address is registered at every moment from which
/// fifteen minutes can be counted, and the account has the identity of the
/// address.
pub proof fn law_institutional_address_registers(email: Email, code: u32, now: i64)
    requires
        email.spec_institutional(),
        now + CODE_LIFETIME <= i64::MAX,
    ensures
        Account::register_result(email, now) is Ok,
        Account::Unverified(
            Context { email, code, expire_time: (now + CODE_LIFETIME) as i64 },
        ).spec_id() == email.spec_id(),
{
}

/// An address outside the institution's domains is never registered.
pub proof fn law_foreign_address_is_refused(email: Email, now: i64)
    requires
        !email.spec_institutional(),
    ensures
        Account::register_result(email, now) == Err::<(), Error>(Error::EmailDomainNotInSchool),
{
}

} // verus!
