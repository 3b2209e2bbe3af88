//! One enrolled TOTP secret.
use vstd::prelude::*;

use crate::text::{append_str, copy_str};

verus! {

/// Number of code digits when none is given.
pub const DEFAULT_DIGITS: u8 = 6;

/// Seconds per time step when none is given.
pub const DEFAULT_INTERVAL: u32 = 30;

#[derive(Debug, Clone, PartialEq)]
pub struct Secret {
    pub id: i64,
    pub service: String,
    pub account: String,
    pub digits: u8,
    pub interval: u32,
    pub public_data: Vec<u8>,
    pub private_data: Vec<u8>,
}

impl Secret {
    /// A secret not stored yet (id 0), with 6 digits and a 30 second interval unless given.
    pub fn new(
        service: String,
        account: String,
        digits: Option<u8>,
        interval: Option<u32>,
        public_data: Vec<u8>,
        private_data: Vec<u8>,
    ) -> (r: Self)
        ensures
            r.id == 0,
            r.service@ == service@,
            r.account@ == account@,
            r.digits == (match digits {
                Some(d) => d,
                None => DEFAULT_DIGITS,
            }),
            r.interval == (match interval {
                Some(i) => i,
                None => DEFAULT_INTERVAL,
            }),
            r.public_data@ == public_data@,
            r.private_data@ == private_data@,
    {
        Secret {
            id: 0,
            service: service,
            account: account,
            digits: match digits {
                Some(d) => d,
                None => DEFAULT_DIGITS,
            },
            interval: match interval {
                Some(i) => i,
                None => DEFAULT_INTERVAL,
            },
            public_data: public_data,
            private_data: private_data,
        }
    }

    /// How the secret is shown to a user: `account @ service`.
    pub fn label(&self) -> (r: String)
        ensures
            r@ == self.account@ + seq![' ', '@', ' '] + self.service@,
    {
        let mut r = copy_str(self.account.as_str());
        append_str(&mut r, " @ ");
        append_str(&mut r, self.service.as_str());
        proof {
            reveal_strlit(" @ ");
        }
        r
    }
}

} // verus!
