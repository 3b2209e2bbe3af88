//! The decisions of the TOTP store: when an installation counts as initialized, how the root
//! key's files are read, the presence gate in front of the module, what a clear removes,
//! where a new root key is persisted, and how a code is computed from a stored secret.
use vstd::prelude::*;

use crate::db::model::Secret;
use crate::presence_verification::{self, PresenceVerifier};
use crate::text::{
    decimal, lemma_decimal_digits, lemma_decimal_round_trip, lemma_trim_keeps, parse_unsigned,
    parse_unsigned_text, trim, trim_spec, is_white_space,
};
use crate::totp::{
    be_bytes, counter_message, padded_decimal, time_counter, totp_code_to_string,
    truncated_value,
};

verus! {

/// Marks a store whose module session is open and whose root key is loaded.
#[derive(Debug)]
pub struct WithTPM;

/// Marks a store that only reads and deletes metadata.
#[derive(Debug)]
pub struct WithoutTPM;

#[derive(Debug, PartialEq)]
pub enum Error {
    NotInitialized,
    AlreadyInitialized,
    KeyHandleError,
    PresenceVerificationFailed,
    PresenceVerificationError(presence_verification::Error),
    NotFound,
    HandleSpaceExhausted,
}

/// `init` may only run while neither the auth value file nor the handle file exists.
pub fn check_uninitialized(auth_value_exists: bool, handle_exists: bool) -> (r: Result<(), Error>)
    ensures
        r == if auth_value_exists || handle_exists {
            Err::<(), Error>(Error::AlreadyInitialized)
        } else {
            Ok(())
        },
{
    if auth_value_exists || handle_exists {
        Err(Error::AlreadyInitialized)
    } else {
        Ok(())
    }
}

/// The handle written in a handle file whose text has been trimmed.
pub fn handle_from_trim_spec(t: &str) -> (r: Result<u32, Error>)
    ensures
        r == match parse_unsigned(t@, u32::MAX as nat) {
            Some(v) => Ok::<u32, Error>(v as u32),
            None => Err(Error::KeyHandleError),
        },
{
    match parse_unsigned_text(t, u32::MAX as u64) {
        Some(v) => Ok(v as u32),
        None => Err(Error::KeyHandleError),
    }
}

/// The handle written in a handle file: a decimal number, whitespace around it ignored.
pub fn parse_key_handle(text: &str) -> (r: Result<u32, Error>)
    ensures
        r == match parse_unsigned(trim_spec(text@), u32::MAX as nat) {
            Some(v) => Ok::<u32, Error>(v as u32),
            None => Err(Error::KeyHandleError),
        },
{
    handle_from_trim_spec(trim(text))
}

/// The handle file that `init` writes (the handle in decimal) reads back as that handle.
/// The same holds with a line break after the number.
pub proof fn lemma_handle_file_round_trip(h: u32)
    ensures
        parse_unsigned(trim_spec(decimal(h as nat)), u32::MAX as nat) == Some(h as nat),
        parse_unsigned(trim_spec(decimal(h as nat).push('\n')), u32::MAX as nat) == Some(
            h as nat,
        ),
{
    let d = decimal(h as nat);
    lemma_decimal_round_trip(h as nat, u32::MAX as nat);
    lemma_decimal_digits(h as nat);
    assert('0' <= d[0] <= '9');
    assert('0' <= d[d.len() - 1] <= '9');
    lemma_trim_keeps(d);
    let e = d.push('\n');
    assert(e[0] == d[0]);
    assert(is_white_space(e.last()));
    assert(e.drop_last() =~= d);
    assert(trim_spec(e) == d);
}

/// The root key's auth value and handle from the contents of their files (`None` for a file
/// that could not be read).
pub fn root_key_files(auth_value: Option<Vec<u8>>, handle_text: Option<String>) -> (r: Result<
    (Vec<u8>, u32),
    Error,
>)
    ensures
        auth_value is None || handle_text is None ==> r == Err::<(Vec<u8>, u32), Error>(
            Error::NotInitialized,
        ),
        auth_value is Some && handle_text is Some ==> match parse_unsigned(
            trim_spec(handle_text->0@),
            u32::MAX as nat,
        ) {
            Some(h) => r matches Ok((a, k)) && a@ == auth_value->0@ && k == h,
            None => r == Err::<(Vec<u8>, u32), Error>(Error::KeyHandleError),
        },
{
    let auth = match auth_value {
        Some(a) => a,
        None => {
            return Err(Error::NotInitialized);
        },
    };
    let text = match handle_text {
        Some(t) => t,
        None => {
            return Err(Error::NotInitialized);
        },
    };
    match parse_key_handle(text.as_str()) {
        Ok(h) => Ok((auth, h)),
        Err(e) => Err(e),
    }
}

/// The module may only be opened once presence is verified.
pub fn presence_gate(outcome: presence_verification::Result<bool>) -> (r: Result<(), Error>)
    ensures
        r == match outcome {
            Ok(true) => Ok::<(), Error>(()),
            Ok(false) => Err(Error::PresenceVerificationFailed),
            Err(e) => Err(Error::PresenceVerificationError(e)),
        },
{
    match outcome {
        Ok(true) => Ok(()),
        Ok(false) => Err(Error::PresenceVerificationFailed),
        Err(e) => Err(Error::PresenceVerificationError(e)),
    }
}

/// Asks the verifier and lets the module be opened only on a positive answer.
pub fn verify_presence<P: PresenceVerifier + ?Sized>(pv: &mut P) -> (r: Result<(), Error>)
    ensures
        r is Ok || r == Err::<(), Error>(Error::PresenceVerificationFailed) || r
            is Err && r->Err_0 is PresenceVerificationError,
{
    presence_gate(pv.owner_present())
}

/// What a clear removes.
#[derive(Clone, Copy, Debug, PartialEq, Eq)]
pub struct ClearPlan {
    pub destroy_root_key: bool,
    pub remove_auth_value: bool,
    pub remove_key_handle: bool,
    pub remove_secrets_db: bool,
}

/// A clear always removes the secrets database. A system clear also removes the files that
/// exist, and destroys the root key when both of its files are there to reach it with.
pub fn clear_plan(system: bool, auth_value_exists: bool, handle_exists: bool) -> (r: ClearPlan)
    ensures
        r.remove_secrets_db,
        r.destroy_root_key == (system && auth_value_exists && handle_exists),
        r.remove_auth_value == (system && auth_value_exists),
        r.remove_key_handle == (system && handle_exists),
{
    ClearPlan {
        destroy_root_key: system && auth_value_exists && handle_exists,
        remove_auth_value: system && auth_value_exists,
        remove_key_handle: system && handle_exists,
        remove_secrets_db: true,
    }
}

/// The first address of the persistent handle range.
pub const FIRST_PERSISTENT_HANDLE: u32 = 0x8100_0000;

/// The last address of the persistent handle range.
pub const LAST_PERSISTENT_HANDLE: u32 = 0x8100_ffff;

/// What the module says of a persistent handle.
#[derive(Debug)]
pub enum HandleProbe<E> {
    Free,
    Occupied,
    Failed(E),
}

/// Why no handle was found.
#[derive(Debug)]
pub enum HandleSearchError<E> {
    /// Every handle of the range is occupied.
    Exhausted,
    /// The module could not be asked about the handle.
    Probe(u32, E),
}

/// Scans the persistent handle range upward and returns the first handle that `probe` reports
/// free; a failed probe ends the search.
pub fn find_next_persistent_handle<E, F: Fn(u32) -> HandleProbe<E>>(probe: &F) -> (r: Result<
    u32,
    HandleSearchError<E>,
>)
    requires
        forall|h: u32| probe.requires((h,)),
    ensures
        r matches Ok(h) ==> FIRST_PERSISTENT_HANDLE <= h <= LAST_PERSISTENT_HANDLE
            && probe.ensures((h,), HandleProbe::<E>::Free) && forall|g: u32|
            FIRST_PERSISTENT_HANDLE <= g < h ==> probe.ensures((g,), HandleProbe::<E>::Occupied),
        r matches Err(HandleSearchError::Exhausted) ==> forall|g: u32|
            FIRST_PERSISTENT_HANDLE <= g <= LAST_PERSISTENT_HANDLE ==> probe.ensures(
                (g,),
                HandleProbe::<E>::Occupied,
            ),
        r matches Err(HandleSearchError::Probe(g, e)) ==> FIRST_PERSISTENT_HANDLE <= g
            <= LAST_PERSISTENT_HANDLE && probe.ensures((g,), HandleProbe::<E>::Failed(e)),
{
    let mut h: u32 = FIRST_PERSISTENT_HANDLE;
    loop
        invariant
            FIRST_PERSISTENT_HANDLE <= h <= LAST_PERSISTENT_HANDLE,
            forall|h: u32| probe.requires((h,)),
            forall|g: u32|
                FIRST_PERSISTENT_HANDLE <= g < h ==> probe.ensures((g,), HandleProbe::<E>::Occupied),
        decreases LAST_PERSISTENT_HANDLE - h,
    {
        let answer = probe(h);
        let ghost seen = answer;
        match answer {
            HandleProbe::Free => {
                return Ok(h);
            },
            HandleProbe::Failed(e) => {
                proof {
                    assert(seen == HandleProbe::<E>::Failed(e));
                    assert(probe.ensures((h,), HandleProbe::<E>::Failed(e)));
                }
                return Err(HandleSearchError::Probe(h, e));
            },
            HandleProbe::Occupied => {},
        }
        if h == LAST_PERSISTENT_HANDLE {
            return Err(HandleSearchError::Exhausted);
        }
        h = h + 1;
    }
}

/// The HMAC message for a secret at a Unix time: its time step as eight big-endian bytes.
pub fn hotp_message(secret: &Secret, unix_secs: u64) -> (r: Vec<u8>)
    requires
        secret.interval > 0,
    ensures
        r@ == be_bytes(unix_secs / (secret.interval as u64)),
{
    counter_message(time_counter(unix_secs, secret.interval))
}

/// The code of a secret from the HMAC digest of its time step.
pub fn code_from_digest(secret: &Secret, digest: &Vec<u8>) -> (r: String)
    requires
        digest@.len() >= 19,
    ensures
        r@ == padded_decimal(truncated_value(digest@), secret.digits as nat),
{
    totp_code_to_string(digest, secret.digits as u32)
}

/// Why no code could be generated.
#[derive(Debug)]
pub enum CodeError<E> {
    /// The secret's interval is zero, so it has no time steps.
    ZeroInterval,
    /// The module's HMAC failed.
    Hmac(E),
    /// The digest is too short for dynamic truncation.
    ShortDigest,
}

/// The code of `secret` at `unix_secs`: the time step's message goes to `hmac`, and the digest
/// that comes back is truncated and formatted.
pub fn generate_code<E, F: Fn(Vec<u8>) -> Result<Vec<u8>, E>>(
    secret: &Secret,
    unix_secs: u64,
    hmac: &F,
) -> (r: Result<String, CodeError<E>>)
    requires
        forall|m: Vec<u8>| hmac.requires((m,)),
    ensures
        secret.interval == 0 <==> r matches Err(CodeError::ZeroInterval),
        r matches Ok(code) ==> exists|m: Vec<u8>, d: Vec<u8>|
            m@ == be_bytes(unix_secs / (secret.interval as u64)) && hmac.ensures(
                (m,),
                Ok::<Vec<u8>, E>(d),
            ) && d@.len() >= 19 && code@ == padded_decimal(
                truncated_value(d@),
                secret.digits as nat,
            ),
        r matches Err(CodeError::Hmac(e)) ==> exists|m: Vec<u8>|
            m@ == be_bytes(unix_secs / (secret.interval as u64)) && hmac.ensures(
                (m,),
                Err::<Vec<u8>, E>(e),
            ),
        r matches Err(CodeError::ShortDigest) ==> exists|m: Vec<u8>, d: Vec<u8>|
            m@ == be_bytes(unix_secs / (secret.interval as u64)) && hmac.ensures(
                (m,),
                Ok::<Vec<u8>, E>(d),
            ) && d@.len() < 19,
{
    if secret.interval == 0 {
        return Err(CodeError::ZeroInterval);
    }
    let message = hotp_message(secret, unix_secs);
    let ghost sent = message;
    let answer = hmac(message);
    let ghost got = answer;
    match answer {
        Err(e) => {
            proof {
                assert(got == Err::<Vec<u8>, E>(e));
            }
            Err(CodeError::Hmac(e))
        },
        Ok(digest) => {
            proof {
                assert(got == Ok::<Vec<u8>, E>(digest));
            }
            if digest.len() < 19 {
                return Err(CodeError::ShortDigest);
            }
            Ok(code_from_digest(secret, &digest))
        },
    }
}

} // verus!
