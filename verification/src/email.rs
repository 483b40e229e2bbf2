//! Email addresses as the registry sees them: the text, its domain part and
//! the 64-bit identity derived from it.

use lettre::Address;
use std::collections::hash_map::DefaultHasher;
use std::hash::{Hash, Hasher};
use std::str::FromStr;
use vstd::prelude::*;

verus! {

/// The domain part of `text` read as an email address by `lettre`, or `None`
/// where `lettre` does not accept `text` as an address.
pub uninterp spec fn address_domain(text: Seq<char>) -> Option<Seq<char>>;

/// The hash of `text` read as an email address by `lettre`, under the standard
/// library's default hasher with its fixed keys, as one build of the library
/// computes it; `None` where `text` is no address.
pub uninterp spec fn address_hash(text: Seq<char>) -> Option<u64>;

/// The position of the last `@` in `text`, or -1 where it has none.
pub open spec fn last_at(text: Seq<char>) -> int
    decreases text.len(),
{
    if text.len() == 0 {
        -1
    } else if text.last() == '@' {
        text.len() - 1
    } else {
        last_at(text.drop_last())
    }
}

/// What follows the last `@` of `text`; all of `text` where it has none.
pub open spec fn domain_part(text: Seq<char>) -> Seq<char> {
    text.skip(last_at(text) + 1)
}

/// Calls `lettre::Address::from_str` and `Address::domain`. The contract
/// names the outcome: the domain of the parsed address, or `None` when parsing
/// fails. Of an address that parses it says that the domain is what follows
/// the last `@`, which is where `lettre` splits. Nothing is claimed about
/// which texts parse.
#[verifier::external_body]
fn parse_domain(text: &str) -> (r: Option<String>)
    ensures
        match r {
            Some(d) => address_domain(text@) == Some(d@),
            None => address_domain(text@) is None,
        },
        r matches Some(d) ==> d@ == domain_part(text@),
{
    match Address::from_str(text) {
        Ok(address) => Some(address.domain().to_string()),
        Err(_) => None,
    }
}

/// Calls `lettre::Address::from_str` and feeds the address to a
/// `DefaultHasher::new()`, whose keys are fixed. The contract only names the
/// outcome: the finished hash, or `None` when parsing fails.
#[verifier::external_body]
fn parse_hash(text: &str) -> (r: Option<u64>)
    ensures
        r == address_hash(text@),
{
    match Address::from_str(text) {
        Ok(address) => {
            let mut hasher = DefaultHasher::new();
            address.hash(&mut hasher);
            Some(hasher.finish())
        },
        Err(_) => None,
    }
}

/// A syntactically valid email address together with what the registry reads
/// of it.
#[derive(Debug)]
pub struct Email {
    text: String,
    domain: String,
    id: u64,
}

impl View for Email {
    type V = Seq<char>;

    closed spec fn view(&self) -> Seq<char> {
        self.text@
    }
}

impl Email {
    #[verifier::type_invariant]
    spec fn well_formed(self) -> bool {
        &&& address_domain(self.text@) == Some(self.domain@)
        &&& address_hash(self.text@) == Some(self.id)
        &&& self.domain@ == domain_part(self.text@)
    }

    /// The domain part, as a sequence of characters.
    pub closed spec fn spec_domain(self) -> Seq<char> {
        self.domain@
    }

    /// The identity derived from the address.
    pub closed spec fn spec_id(self) -> u64 {
        self.id
    }

    /// Reads `text` as an address. Succeeds exactly on the texts that have
    /// both a domain and a hash.
    pub fn parse(text: &str) -> (r: Option<Email>)
        ensures
            r is Some <==> (address_domain(text@) is Some && address_hash(text@) is Some),
            r matches Some(e) ==> {
                &&& e@ == text@
                &&& e.spec_domain() == domain_part(text@)
                &&& Some(e.spec_domain()) == address_domain(text@)
                &&& Some(e.spec_id()) == address_hash(text@)
            },
    {
        match parse_domain(text) {
            None => None,
            Some(domain) => match parse_hash(text) {
                None => None,
                Some(id) => Some(Email { text: text.to_owned(), domain, id }),
            },
        }
    }

    /// The identity: the hash of the address.
    pub fn id(&self) -> (r: u64)
        ensures
            r == self.spec_id(),
            address_hash(self@) == Some(r),
    {
        proof {
            use_type_invariant(self);
        }
        self.id
    }

    /// The domain part of the address.
    pub fn domain(&self) -> (r: &String)
        ensures
            r@ == self.spec_domain(),
            r@ == domain_part(self@),
            address_domain(self@) == Some(r@),
    {
        proof {
            use_type_invariant(self);
        }
        &self.domain
    }

    /// The whole address as text.
    pub fn as_str(&self) -> (r: &str)
        ensures
            r@ == self@,
    {
        self.text.as_str()
    }

    /// A second handle on the same address.
    pub fn copy(&self) -> (r: Email)
        ensures
            r@ == self@,
            r.spec_domain() == self.spec_domain(),
            r.spec_id() == self.spec_id(),
    {
        proof {
            use_type_invariant(self);
        }
        Email { text: self.text.clone(), domain: self.domain.clone(), id: self.id }
    }

    /// Whether the address belongs to one of the institution's two domains.
    pub open spec fn spec_institutional(self) -> bool {
        self.spec_domain() == "i.pkuschool.edu.cn"@ || self.spec_domain() == "pkuschool.edu.cn"@
    }

    /// Whether the address belongs to one of the institution's two domains.
    pub fn is_institutional(&self) -> (r: bool)
        ensures
            r == self.spec_institutional(),
            self.spec_domain() == domain_part(self@),
    {
        proof {
            use_type_invariant(self);
        }
        let first = "i.pkuschool.edu.cn".to_owned();
        let second = "pkuschool.edu.cn".to_owned();
        self.domain == first || self.domain == second
    }
}

} // verus!
