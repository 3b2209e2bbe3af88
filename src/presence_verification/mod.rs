//! Checking that the owner of the machine is at the keyboard before the module is opened.
use vstd::prelude::*;

use crate::text::{copy_str, str_eq};

pub mod fprintd;

verus! {

#[derive(Debug, PartialEq)]
pub enum Error {
    ImplementationSpecificError(String),
}

pub type Result<T> = core::result::Result<T, Error>;

/// How presence is verified, as named in the configuration.
#[derive(Debug, Clone, Copy, PartialEq, Eq)]
pub enum PresenceVerificationMethod {
    Fprintd,
    Disabled,
}

/// The configuration name of a method.
pub open spec fn method_name(m: PresenceVerificationMethod) -> Seq<char> {
    match m {
        PresenceVerificationMethod::Fprintd => "fprintd"@,
        PresenceVerificationMethod::Disabled => "none"@,
    }
}

impl PresenceVerificationMethod {
    /// The method with the given name; names are exact and lower case.
    pub fn from_name(s: &str) -> (r: Option<Self>)
        ensures
            r == (if s@ == method_name(PresenceVerificationMethod::Fprintd) {
                Some(PresenceVerificationMethod::Fprintd)
            } else if s@ == method_name(PresenceVerificationMethod::Disabled) {
                Some(PresenceVerificationMethod::Disabled)
            } else {
                None
            }),
    {
        proof {
            reveal_strlit("fprintd");
            reveal_strlit("none");
        }
        if str_eq(s, "fprintd") {
            Some(PresenceVerificationMethod::Fprintd)
        } else if str_eq(s, "none") {
            Some(PresenceVerificationMethod::Disabled)
        } else {
            None
        }
    }
}

impl core::str::FromStr for PresenceVerificationMethod {
    type Err = String;

    /// Parses a method name; the error holds the name that was not recognised.
    fn from_str(s: &str) -> core::result::Result<Self, String> {
        match PresenceVerificationMethod::from_name(s) {
            Some(m) => Ok(m),
            None => Err(copy_str(s)),
        }
    }
}

/// Answers whether the authorized user is present.
pub trait PresenceVerifier {
    fn owner_present(&mut self) -> Result<bool>;
}

/// A verifier that always gives the same answer.
pub struct ConstPresenceVerifier(bool);

impl ConstPresenceVerifier {
    pub fn new(const_result: bool) -> (r: Self)
        ensures
            r.answer() == const_result,
    {
        ConstPresenceVerifier(const_result)
    }

    pub closed spec fn answer(&self) -> bool {
        self.0
    }

    /// The fixed answer.
    pub fn result(&self) -> (r: bool)
        ensures
            r == self.answer(),
    {
        self.0
    }
}

impl PresenceVerifier for ConstPresenceVerifier {
    /// Answers the fixed value at once; never fails.
    fn owner_present(&mut self) -> (r: Result<bool>)
        ensures
            r == Ok::<bool, Error>(old(self).answer()),
            final(self).answer() == old(self).answer(),
    {
        Ok(self.0)
    }
}

} // verus!
