//! What an account operation can fail with.

use vstd::prelude::*;

verus! {

/// Failures of a single account's transitions.
#[derive(Debug)]
pub enum Error {
    /// The verification code does not match.
    VerificationCode,
    /// The operation needs a verified account.
    UserUnverified,
    /// The account was activated before.
    UserRegistered,
    /// The password does not match the stored hash.
    PasswordIncorrect,
    /// The token is not one of the account's.
    TokenIncorrect,
    /// The address is not in one of the institution's domains.
    EmailDomainNotInSchool,
    /// A moment in time does not fit the timestamp range.
    DateOutOfRange,
    /// The mail transport failed; holds its message.
    MailSend(String),
    /// No password reset was requested.
    PermissionDenied,
    /// An account with the same identity exists.
    Conflict,
}

impl Error {
    /// The HTTP status that stands for this failure.
    pub open spec fn spec_response_code(self) -> u16 {
        match self {
            Error::MailSend(_) => 500,
            Error::Conflict => 409,
            _ => 403,
        }
    }

    /// The HTTP status that stands for this failure: 500 for a failed mail
    /// transport, 409 for a conflict, 403 for everything else.
    pub fn response_code(&self) -> (r: u16)
        ensures
            r == self.spec_response_code(),
    {
        match self {
            Error::MailSend(_) => 500,
            Error::Conflict => 409,
            _ => 403,
        }
    }

    /// A short description.
    pub fn message(&self) -> (r: &'static str)
        ensures
            r@ == self.spec_message(),
    {
        match self {
            Error::VerificationCode => "verification code not match",
            Error::UserUnverified => "user has not been verified",
            Error::UserRegistered => "user already registered",
            Error::PasswordIncorrect => "password incorrect",
            Error::TokenIncorrect => "token incorrect",
            Error::EmailDomainNotInSchool => "domain of email address is not from PKUSchool",
            Error::DateOutOfRange => "date out of range",
            Error::MailSend(_) => "smtp error while sending verification mail",
            Error::PermissionDenied => "permission denied",
            Error::Conflict => "user with same id already exists",
        }
    }

    /// The description of each failure.
    pub open spec fn spec_message(self) -> Seq<char> {
        match self {
            Error::VerificationCode => "verification code not match"@,
            Error::UserUnverified => "user has not been verified"@,
            Error::UserRegistered => "user already registered"@,
            Error::PasswordIncorrect => "password incorrect"@,
            Error::TokenIncorrect => "token incorrect"@,
            Error::EmailDomainNotInSchool => "domain of email address is not from PKUSchool"@,
            Error::DateOutOfRange => "date out of range"@,
            Error::MailSend(_) => "smtp error while sending verification mail"@,
            Error::PermissionDenied => "permission denied"@,
            Error::Conflict => "user with same id already exists"@,
        }
    }
}

} // verus!
