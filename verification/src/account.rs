//! A single account and its transitions: registration, activation, login,
//! logout and password reset.

use crate::email::Email;
use crate::error::Error;
use crate::verify::{
    deadline, expiry, holds, live, random_code, without, Context, Token, Tokens, CODE_END,
    CODE_LIFETIME, CODE_MIN, TOKEN_LENGTH,
};
use vstd::prelude::*;

verus! {

/// The lower-case hexadecimal SHA-256 digest of the UTF-8 bytes of `text`.
pub uninterp spec fn sha256_hex(text: Seq<char>) -> Seq<char>;

/// Calls `sha256::digest` on the text. The contract names the digest and
/// claims nothing else of it.
#[verifier::external_body]
fn password_digest(password: &str) -> (r: String)
    ensures
        r@ == sha256_hex(password@),
{
    sha256::digest(password)
}

/// A house of the school.
#[derive(Debug, Clone, Copy, PartialEq, Eq, Structural)]
pub enum House {
    GeWu,
    ZhiZhi,
    ChengYi,
    ZhengXin,
    MingDe,
    HongYi,
    XiYue,
    XinMin,
    ZhiShan,
}

/// Something an account may be allowed to do.
#[derive(Debug, Clone, Copy, PartialEq, Eq, Structural)]
pub enum Permission {
    /// Read what others have published.
    View,
    /// Publish.
    Post,
    /// Approve what others want to publish.
    Check,
    /// Administer accounts.
    Manage,
}

/// What is known of a verified user.
#[derive(Debug)]
pub struct UserAttributes {
    /// Email address of this user.
    pub email: Email,
    /// Name of this user.
    pub name: String,
    /// School id of this user.
    pub school_id: u32,
    /// Phone number of this user.
    pub phone: u64,
    /// House this student belongs to, if any.
    pub house: Option<House>,
    /// Organization this user belongs to, if any.
    pub organization: Option<String>,
    /// Permissions this user has.
    pub permissions: Vec<Permission>,
    /// The registration time, in seconds since the epoch.
    pub registration_time: i64,
    /// Hexadecimal SHA-256 digest of this user's password.
    pub password_sha: String,
    /// Days for which a token stays valid; 0: for ever.
    pub token_expiration_time: u16,
}

impl UserAttributes {
    /// These attributes under the address `email`.
    pub open spec fn with_email(self, email: Email) -> UserAttributes {
        UserAttributes {
            email,
            name: self.name,
            school_id: self.school_id,
            phone: self.phone,
            house: self.house,
            organization: self.organization,
            permissions: self.permissions,
            registration_time: self.registration_time,
            password_sha: self.password_sha,
            token_expiration_time: self.token_expiration_time,
        }
    }
}

/// The part of a user's attributes that may be shown.
#[derive(Debug)]
pub struct UserMetadata {
    pub email: Email,
    pub name: String,
    pub school_id: u32,
    pub phone: u64,
    pub house: Option<House>,
    pub organization: Option<String>,
}

impl UserMetadata {
    /// `self` shows `attributes`: the address, the name, the school id, the
    /// phone number, the house and the organization are theirs.
    pub open spec fn shows(self, attributes: UserAttributes) -> bool {
        &&& self.email@ == attributes.email@
        &&& self.email.spec_id() == attributes.email.spec_id()
        &&& self.email.spec_domain() == attributes.email.spec_domain()
        &&& self.name@ == attributes.name@
        &&& self.school_id == attributes.school_id
        &&& self.phone == attributes.phone
        &&& self.house == attributes.house
        &&& match (self.organization, attributes.organization) {
            (Some(a), Some(b)) => a@ == b@,
            (None, None) => true,
            _ => false,
        }
    }
}

/// A verification that a verified account may have pending.
#[derive(Debug)]
pub enum UserVerifyVariant {
    /// Nothing is pending.
    Idle,
    /// A password reset was requested.
    ForgetPassword(Context),
}

/// What a verification code is presented for.
pub enum AccountVerifyVariant {
    /// Activate an unverified account with these attributes.
    Activate(UserAttributes),
    /// Replace a forgotten password by this one.
    ResetPassword(String),
}

/// An account, before or after its address was verified.
#[derive(Debug)]
pub enum Account {
    /// Waiting for the code that was mailed to the address.
    Unverified(Context),
    /// A user.
    Verified {
        /// Identity of this user.
        id: u64,
        /// Attributes of this user.
        attributes: UserAttributes,
        /// The tokens issued to this user.
        tokens: Tokens,
        /// The verification that is pending, if any.
        verify: UserVerifyVariant,
    },
}

impl Account {
    /// The identity: the hash of the address while unverified, the stored
    /// identity afterwards.
    pub open spec fn spec_id(self) -> u64 {
        match self {
            Account::Unverified(cxt) => cxt.email.spec_id(),
            Account::Verified { id, .. } => id,
        }
    }

    /// The address of the account.
    pub open spec fn spec_email(self) -> Email {
        match self {
            Account::Unverified(cxt) => cxt.email,
            Account::Verified { attributes, .. } => attributes.email,
        }
    }

    /// The tokens of the account; none while unverified.
    pub open spec fn spec_tokens(self) -> Seq<Token> {
        match self {
            Account::Unverified(_) => Seq::empty(),
            Account::Verified { tokens, .. } => tokens@,
        }
    }

    /// Days for which a token of the account stays valid; 0 while unverified.
    pub open spec fn spec_token_days(self) -> u16 {
        match self {
            Account::Unverified(_) => 0,
            Account::Verified { attributes, .. } => attributes.token_expiration_time,
        }
    }

    /// The permissions of the account; none while unverified.
    pub open spec fn spec_permissions(self) -> Seq<Permission> {
        match self {
            Account::Unverified(_) => Seq::empty(),
            Account::Verified { attributes, .. } => attributes.permissions@,
        }
    }

    /// Whether the account is unverified and its code is expired at `now`.
    pub open spec fn spec_is_stale(self, now: i64) -> bool {
        match self {
            Account::Unverified(cxt) => cxt.spec_is_expired(now),
            Account::Verified { .. } => false,
        }
    }

    /// `self` is `before` with the tokens replaced by `tokens`.
    pub open spec fn same_but_tokens(self, before: Account, tokens: Seq<Token>) -> bool {
        match (self, before) {
            (
                Account::Verified { id, attributes, tokens: t, verify },
                Account::Verified { id: id0, attributes: attributes0, tokens: _, verify: verify0 },
            ) => id == id0 && attributes == attributes0 && verify == verify0 && t@ == tokens,
            _ => false,
        }
    }

    /// `self` is what activating `before` with `attributes` makes: a verified
    /// account with the identity and the address of `before`, the other
    /// attributes as given, no tokens and nothing pending.
    pub open spec fn activated_from(self, before: Account, attributes: UserAttributes) -> bool {
        match self {
            Account::Verified { id, attributes: a, tokens, verify } => {
                &&& id == before.spec_id()
                &&& a == attributes.with_email(before.spec_email())
                &&& tokens@ == Seq::<Token>::empty()
                &&& verify is Idle
            },
            _ => false,
        }
    }

    /// What presenting `code` for activation at `now` returns: a code that
    /// differs from the one mailed, or that is expired, is refused.
    pub open spec fn activate_result(self, code: u32, now: i64) -> Result<(), Error> {
        match self {
            Account::Unverified(cxt) => if cxt.code == code && !cxt.spec_is_expired(now) {
                Ok(())
            } else {
                Err(Error::VerificationCode)
            },
            Account::Verified { .. } => Err(Error::UserRegistered),
        }
    }

    /// What presenting `code` for a password reset at `now` returns: a code
    /// that differs from the one mailed, or that is expired, is refused.
    pub open spec fn reset_result(self, code: u32, now: i64) -> Result<(), Error> {
        match self {
            Account::Unverified(_) => Err(Error::UserUnverified),
            Account::Verified { verify: UserVerifyVariant::Idle, .. } => Err(
                Error::PermissionDenied,
            ),
            Account::Verified { verify: UserVerifyVariant::ForgetPassword(cxt), .. } => if cxt.code
                == code && !cxt.spec_is_expired(now) {
                Ok(())
            } else {
                Err(Error::VerificationCode)
            },
        }
    }

    /// `self` is `before` after a password reset to `password`.
    pub open spec fn reset_from(self, before: Account, password: Seq<char>) -> bool {
        match (self, before) {
            (
                Account::Verified { id, attributes: a, tokens, verify },
                Account::Verified { id: id0, attributes: a0, tokens: tokens0, verify: _ },
            ) => {
                &&& id == id0
                &&& tokens == tokens0
                &&& verify is Idle
                &&& a.password_sha@ == sha256_hex(password)
                &&& a.email == a0.email
                &&& a.name == a0.name
                &&& a.school_id == a0.school_id
                &&& a.phone == a0.phone
                &&& a.house == a0.house
                &&& a.organization == a0.organization
                &&& a.permissions == a0.permissions
                &&& a.registration_time == a0.registration_time
                &&& a.token_expiration_time == a0.token_expiration_time
            },
            _ => false,
        }
    }

    /// What a login with `password` at `now` returns, but for the token.
    pub open spec fn login_result(self, password: Seq<char>, now: i64) -> Result<(), Error> {
        match self {
            Account::Unverified(_) => Err(Error::UserUnverified),
            Account::Verified { attributes, .. } => if sha256_hex(password)
                != attributes.password_sha@ {
                Err(Error::PasswordIncorrect)
            } else if attributes.token_expiration_time != 0 && deadline(
                now,
                attributes.token_expiration_time,
            ) > i64::MAX {
                Err(Error::DateOutOfRange)
            } else {
                Ok(())
            },
        }
    }

    /// What a logout with `token` returns.
    pub open spec fn logout_result(self, token: Seq<char>) -> Result<(), Error> {
        match self {
            Account::Unverified(_) => Err(Error::UserUnverified),
            Account::Verified { tokens, .. } => if holds(tokens@, token) {
                Ok(())
            } else {
                Err(Error::TokenIncorrect)
            },
        }
    }

    /// What registering `email` at `now` returns, but for the account.
    pub open spec fn register_result(email: Email, now: i64) -> Result<(), Error> {
        if !email.spec_institutional() {
            Err(Error::EmailDomainNotInSchool)
        } else if now + CODE_LIFETIME > i64::MAX {
            Err(Error::DateOutOfRange)
        } else {
            Ok(())
        }
    }

    /// An unverified account for `email` with the given code, which expires
    /// fifteen minutes after `now`. The address must be institutional.
    pub fn unverified(email: Email, code: u32, now: i64) -> (r: Result<Account, Error>)
        ensures
            match r {
                Ok(account) => Account::register_result(email, now) is Ok && account
                    == Account::Unverified(
                    Context { email, code, expire_time: (now + CODE_LIFETIME) as i64 },
                ),
                Err(e) => Account::register_result(email, now) == Err::<(), Error>(e),
            },
    {
        if !email.is_institutional() {
            return Err(Error::EmailDomainNotInSchool);
        }
        match Context::create(email, code, now) {
            Some(cxt) => Ok(Account::Unverified(cxt)),
            None => Err(Error::DateOutOfRange),
        }
    }

    /// Registers `email` at `now` with a code drawn at random.
    pub fn new(email: Email, now: i64) -> (r: Result<Account, Error>)
        ensures
            match r {
                Ok(Account::Unverified(cxt)) => {
                    &&& Account::register_result(email, now) is Ok
                    &&& cxt.email == email
                    &&& CODE_MIN <= cxt.code < CODE_END
                    &&& cxt.expire_time == now + CODE_LIFETIME
                },
                Ok(Account::Verified { .. }) => false,
                Err(e) => Account::register_result(email, now) == Err::<(), Error>(e),
            },
    {
        if !email.is_institutional() {
            return Err(Error::EmailDomainNotInSchool);
        }
        let code = random_code();
        Account::unverified(email, code, now)
    }

    /// Presents `verify_code` at `now` for what `variant` says: activation of
    /// an unverified account, or the reset of a verified account's password.
    /// An expired code is refused like a wrong one. Activation keeps the
    /// identity and the address under which the account was registered,
    /// whatever address the attributes carry. On failure nothing changes.
    pub fn verify(&mut self, verify_code: u32, variant: AccountVerifyVariant, now: i64) -> (r:
        Result<(), Error>)
        ensures
            r is Err ==> *final(self) == *old(self),
            final(self).spec_id() == old(self).spec_id(),
            match variant {
                AccountVerifyVariant::Activate(attributes) => {
                    &&& r == old(self).activate_result(verify_code, now)
                    &&& r is Ok ==> final(self).activated_from(*old(self), attributes)
                },
                AccountVerifyVariant::ResetPassword(password) => {
                    &&& r == old(self).reset_result(verify_code, now)
                    &&& r is Ok ==> final(self).reset_from(*old(self), password@)
                },
            },
    {
        match variant {
            AccountVerifyVariant::Activate(attributes) => {
                let mut attributes = attributes;
                let accepted: Option<bool> = match self {
                    Account::Unverified(cxt) => {
                        if cxt.matches(verify_code) && !cxt.is_expired(now) {
                            std::mem::swap(&mut cxt.email, &mut attributes.email);
                            Some(true)
                        } else {
                            Some(false)
                        }
                    },
                    Account::Verified { .. } => None,
                };
                match accepted {
                    Some(true) => {
                        let id = attributes.email.id();
                        *self = Account::Verified {
                            id,
                            attributes,
                            tokens: Tokens::new(),
                            verify: UserVerifyVariant::Idle,
                        };
                        Ok(())
                    },
                    Some(false) => Err(Error::VerificationCode),
                    None => Err(Error::UserRegistered),
                }
            },
            AccountVerifyVariant::ResetPassword(password) => {
                match self {
                    Account::Verified { attributes, verify, .. } => {
                        let accepted: Option<bool> = match verify {
                            UserVerifyVariant::Idle => None,
                            UserVerifyVariant::ForgetPassword(cxt) => Some(
                                cxt.matches(verify_code) && !cxt.is_expired(now),
                            ),
                        };
                        match accepted {
                            None => Err(Error::PermissionDenied),
                            Some(false) => Err(Error::VerificationCode),
                            Some(true) => {
                                attributes.password_sha = password_digest(password.as_str());
                                *verify = UserVerifyVariant::Idle;
                                Ok(())
                            },
                        }
                    },
                    Account::Unverified(_) => Err(Error::UserUnverified),
                }
            },
        }
    }

    /// Activates an unverified account whose code is `code` and not expired
    /// at `now`. The account keeps its identity and its address.
    pub fn activate(&mut self, code: u32, attributes: UserAttributes, now: i64) -> (r: Result<
        (),
        Error,
    >)
        ensures
            r == old(self).activate_result(code, now),
            r is Ok ==> final(self).activated_from(*old(self), attributes),
            r is Err ==> *final(self) == *old(self),
            final(self).spec_id() == old(self).spec_id(),
    {
        self.verify(code, AccountVerifyVariant::Activate(attributes), now)
    }

    /// Replaces the password of an account for which a reset is pending with
    /// the code `code`, not expired at `now`.
    pub fn reset_password(&mut self, code: u32, new_password: String, now: i64) -> (r: Result<
        (),
        Error,
    >)
        ensures
            r == old(self).reset_result(code, now),
            r is Ok ==> final(self).reset_from(*old(self), new_password@),
            r is Err ==> *final(self) == *old(self),
            final(self).spec_id() == old(self).spec_id(),
    {
        self.verify(code, AccountVerifyVariant::ResetPassword(new_password), now)
    }

    /// What a reset request at `now` returns.
    pub open spec fn request_result(self, now: i64) -> Result<(), Error> {
        match self {
            Account::Unverified(_) => Err(Error::UserUnverified),
            Account::Verified { .. } => if now + CODE_LIFETIME > i64::MAX {
                Err(Error::DateOutOfRange)
            } else {
                Ok(())
            },
        }
    }

    /// `self` is `before` with a reset pending under `code` until fifteen
    /// minutes after `now`.
    pub open spec fn requested_from(self, before: Account, code: u32, now: i64) -> bool {
        match (self, before) {
            (
                Account::Verified { id, attributes, tokens, verify },
                Account::Verified { id: id0, attributes: a0, tokens: tokens0, verify: _ },
            ) => {
                &&& id == id0
                &&& attributes == a0
                &&& tokens == tokens0
                &&& verify matches UserVerifyVariant::ForgetPassword(cxt)
                &&& cxt.email@ == a0.email@
                &&& cxt.email.spec_id() == a0.email.spec_id()
                &&& cxt.code == code
                &&& cxt.expire_time == now + CODE_LIFETIME
            },
            _ => false,
        }
    }

    /// Installs a pending password reset with the given code, replacing an
    /// earlier one.
    pub fn request_password_reset_with(&mut self, code: u32, now: i64) -> (r: Result<(), Error>)
        ensures
            r == old(self).request_result(now),
            r is Ok ==> final(self).requested_from(*old(self), code, now),
            r is Err ==> *final(self) == *old(self),
    {
        match self {
            Account::Unverified(_) => Err(Error::UserUnverified),
            Account::Verified { attributes, verify, .. } => {
                match Context::create(attributes.email.copy(), code, now) {
                    Some(cxt) => {
                        *verify = UserVerifyVariant::ForgetPassword(cxt);
                        Ok(())
                    },
                    None => Err(Error::DateOutOfRange),
                }
            },
        }
    }

    /// Installs a pending password reset with a code drawn at random and
    /// returns the code, for the caller to mail.
    pub fn request_password_reset(&mut self, now: i64) -> (r: Result<u32, Error>)
        ensures
            match r {
                Ok(code) => {
                    &&& old(self).request_result(now) is Ok
                    &&& CODE_MIN <= code < CODE_END
                    &&& final(self).requested_from(*old(self), code, now)
                },
                Err(e) => old(self).request_result(now) == Err::<(), Error>(e) && *final(self)
                    == *old(self),
            },
    {
        let code = random_code();
        match self.request_password_reset_with(code, now) {
            Ok(()) => Ok(code),
            Err(e) => Err(e),
        }
    }

    /// `self` is `before` after `token` was issued at `now`.
    pub open spec fn issued_from(self, before: Account, token: Seq<char>, now: i64) -> bool {
        match (self, before) {
            (
                Account::Verified { id, attributes, tokens, verify },
                Account::Verified { id: id0, attributes: a0, tokens: tokens0, verify: verify0 },
            ) => {
                &&& id == id0
                &&& attributes == a0
                &&& verify == verify0
                &&& tokens@.len() > 0
                &&& tokens@.drop_last() == without(tokens0@, token)
                &&& tokens@.last().value@ == token
                &&& tokens@.last().owner == id0
                &&& tokens@.last().issued == now
                &&& tokens@.last().expires == expiry(now, a0.token_expiration_time)
            },
            _ => false,
        }
    }

    /// Logs in with `password` at `now` and records `token` as the session's
    /// token.
    pub fn login_with(&mut self, password: &str, token: String, now: i64) -> (r: Result<(), Error>)
        ensures
            r == old(self).login_result(password@, now),
            r is Ok ==> final(self).issued_from(*old(self), token@, now),
            r is Err ==> *final(self) == *old(self),
    {
        match self {
            Account::Unverified(_) => Err(Error::UserUnverified),
            Account::Verified { id, attributes, tokens, .. } => {
                if password_digest(password) == attributes.password_sha {
                    let ghost before = tokens@;
                    if tokens.issue(token, *id, now, attributes.token_expiration_time) {
                        proof {
                            assert(tokens@.drop_last() == without(before, token@));
                        }
                        Ok(())
                    } else {
                        Err(Error::DateOutOfRange)
                    }
                } else {
                    Err(Error::PasswordIncorrect)
                }
            },
        }
    }

    /// Logs in with `password` at `now` and returns a fresh random token.
    pub fn login(&mut self, password: &str, now: i64) -> (r: Result<String, Error>)
        ensures
            match r {
                Ok(token) => {
                    &&& old(self).login_result(password@, now) is Ok
                    &&& token@.len() == TOKEN_LENGTH
                    &&& final(self).issued_from(*old(self), token@, now)
                    &&& final(self).logout_result(token@) is Ok
                },
                Err(e) => old(self).login_result(password@, now) == Err::<(), Error>(e)
                    && *final(self) == *old(self),
            },
    {
        match self {
            Account::Unverified(_) => Err(Error::UserUnverified),
            Account::Verified { id, attributes, tokens, .. } => {
                if password_digest(password) == attributes.password_sha {
                    match tokens.new_token(*id, attributes.token_expiration_time, now) {
                        Some(token) => Ok(token),
                        None => Err(Error::DateOutOfRange),
                    }
                } else {
                    Err(Error::PasswordIncorrect)
                }
            },
        }
    }

    /// Revokes `token`. Fails, changing nothing, where the account is
    /// unverified or the token is not one of its tokens.
    pub fn logout(&mut self, token: &str) -> (r: Result<(), Error>)
        ensures
            r == old(self).logout_result(token@),
            r is Ok ==> final(self).same_but_tokens(
                *old(self),
                without(old(self).spec_tokens(), token@),
            ),
            r is Ok ==> final(self).logout_result(token@) == Err::<(), Error>(
                Error::TokenIncorrect,
            ),
            r is Err ==> *final(self) == *old(self),
    {
        match self {
            Account::Unverified(_) => Err(Error::UserUnverified),
            Account::Verified { tokens, .. } => {
                if tokens.contains(token) {
                    let _ = tokens.remove(token);
                    Ok(())
                } else {
                    Err(Error::TokenIncorrect)
                }
            },
        }
    }

    /// `self` is `before` after the sweep at `now`: expired tokens are gone,
    /// and so is a pending reset whose code is expired. An unverified account
    /// is left as it is.
    pub open spec fn refreshed_from(self, before: Account, now: i64) -> bool {
        match (self, before) {
            (Account::Unverified(_), Account::Unverified(_)) => self == before,
            (
                Account::Verified { id, attributes, tokens, verify },
                Account::Verified { id: id0, attributes: a0, tokens: tokens0, verify: verify0 },
            ) => {
                &&& id == id0
                &&& attributes == a0
                &&& tokens@ == live(tokens0@, now)
                &&& match verify0 {
                    UserVerifyVariant::Idle => verify is Idle,
                    UserVerifyVariant::ForgetPassword(cxt) => if cxt.spec_is_expired(now) {
                        verify is Idle
                    } else {
                        verify == verify0
                    },
                }
            },
            _ => false,
        }
    }

    /// Sweeps a verified account at `now`: drops the expired tokens and an
    /// expired pending reset.
    pub fn refresh(&mut self, now: i64)
        ensures
            final(self).refreshed_from(*old(self), now),
            final(self).spec_id() == old(self).spec_id(),
    {
        match self {
            Account::Unverified(_) => {},
            Account::Verified { tokens, verify, .. } => {
                tokens.refresh(now);
                let expired = match verify {
                    UserVerifyVariant::Idle => false,
                    UserVerifyVariant::ForgetPassword(cxt) => cxt.is_expired(now),
                };
                if expired {
                    *verify = UserVerifyVariant::Idle;
                }
            },
        }
    }

    /// Whether the account is unverified and its code is expired at `now`.
    pub fn is_stale(&self, now: i64) -> (r: bool)
        ensures
            r == self.spec_is_stale(now),
    {
        match self {
            Account::Unverified(cxt) => cxt.is_expired(now),
            Account::Verified { .. } => false,
        }
    }

    /// The identity of the account.
    pub fn id(&self) -> (r: u64)
        ensures
            r == self.spec_id(),
            self is Unverified ==> crate::email::address_hash(self.spec_email()@) == Some(r),
    {
        match self {
            Account::Unverified(cxt) => cxt.email.id(),
            Account::Verified { id, .. } => *id,
        }
    }

    /// The address of the account.
    pub fn email(&self) -> (r: &Email)
        ensures
            *r == self.spec_email(),
    {
        match self {
            Account::Unverified(cxt) => &cxt.email,
            Account::Verified { attributes, .. } => &attributes.email,
        }
    }

    /// The attributes that may be shown; only a verified account has them.
    pub fn metadata(&self) -> (r: Result<UserMetadata, Error>)
        ensures
            match (*self, r) {
                (Account::Unverified(_), Err(Error::UserUnverified)) => true,
                (Account::Verified { attributes, .. }, Ok(m)) => m.shows(attributes),
                _ => false,
            },
    {
        match self {
            Account::Verified { attributes, .. } => Ok(
                UserMetadata {
                    email: attributes.email.copy(),
                    name: attributes.name.clone(),
                    school_id: attributes.school_id,
                    phone: attributes.phone,
                    house: attributes.house,
                    organization: match &attributes.organization {
                        Some(text) => Some(text.clone()),
                        None => None,
                    },
                },
            ),
            Account::Unverified(_) => Err(Error::UserUnverified),
        }
    }

    /// The permissions of the account; none while it is unverified.
    pub fn permissions(&self) -> (r: Vec<Permission>)
        ensures
            r@ == self.spec_permissions(),
    {
        let mut list: Vec<Permission> = Vec::new();
        match self {
            Account::Unverified(_) => {},
            Account::Verified { attributes, .. } => {
                let mut i: usize = 0;
                while i < attributes.permissions.len()
                    invariant
                        i <= attributes.permissions@.len(),
                        list@ == attributes.permissions@.take(i as int),
                    decreases attributes.permissions@.len() - i,
                {
                    list.push(attributes.permissions[i]);
                    proof {
                        assert(attributes.permissions@.take(i + 1) == attributes.permissions@.take(
                            i as int,
                        ).push(attributes.permissions@[i as int]));
                    }
                    i += 1;
                }
                proof {
                    assert(attributes.permissions@.take(i as int) == attributes.permissions@);
                }
            },
        }
        list
    }

    /// Whether the account has `permission`.
    pub fn has_permission(&self, permission: Permission) -> (r: bool)
        ensures
            r == self.spec_permissions().contains(permission),
    {
        match self {
            Account::Unverified(_) => false,
            Account::Verified { attributes, .. } => {
                let mut i: usize = 0;
                while i < attributes.permissions.len()
                    invariant
                        i <= attributes.permissions@.len(),
                        self.spec_permissions() == attributes.permissions@,
                        forall|k: int| 0 <= k < i ==> attributes.permissions@[k] != permission,
                    decreases attributes.permissions@.len() - i,
                {
                    if attributes.permissions[i] == permission {
                        assert(attributes.permissions@[i as int] == permission);
                        return true;
                    }
                    i += 1;
                }
                false
            },
        }
    }
}

} // verus!
