//! Who may pass: the login check, the check of a session before a guarded
//! request, and the server's secret key.

use vstd::prelude::*;
use vstd::string::{StringExecFns, StringSliceAdditionalSpecFns};
use argon2::PasswordVerifier;
use base64::Engine;
use crate::errors::Errors;

verus! {

/// How a password compares with a stored hash.
#[derive(Clone, Copy, Debug, PartialEq, Eq, Structural)]
pub enum PasswordCheck {
    /// The password is the one that was hashed.
    Accepted,
    /// The password is another one.
    Rejected,
    /// The hash could not be read or computed.
    Faulty,
}

/// How `password` compares with the Argon2 hash string `hash`.
pub uninterp spec fn password_check(password: Seq<u8>, hash: Seq<char>) -> PasswordCheck;

/// Parses `hash` with `argon2::PasswordHash::new` and checks `password`
/// against it with `argon2::Argon2::verify_password`, with the parameters and
/// the salt that the hash string holds. A hash string that does not parse, and
/// every error of the check but a mismatch, is reported as `Faulty`. Nothing
/// is proved of the hash function: the contract only gives the outcome a name.
#[verifier::external_body]
fn check_password(password: &[u8], hash: &str) -> (r: PasswordCheck)
    ensures
        r == password_check(password@, hash@),
{
    let parsed = match argon2::PasswordHash::new(hash) {
        Ok(parsed) => parsed,
        Err(_) => return PasswordCheck::Faulty,
    };
    match argon2::Argon2::default().verify_password(password, &parsed) {
        Ok(()) => PasswordCheck::Accepted,
        Err(argon2::password_hash::Error::Password) => PasswordCheck::Rejected,
        Err(_) => PasswordCheck::Faulty,
    }
}

/// A hash that is checked when no user is found, so that the answer takes as
/// long as for a user that exists.
pub const DECOY_HASH: &'static str =
    "$argon2id$v=19$m=16,t=2,p=1$RG9RY0ZxeWs0N3RjTDZ5cQ$FDFDJzWVOJiBvE/Sg9HjMw";

/// The password that `DECOY_HASH` was made from.
pub const DECOY_PASSWORD: &'static str = "super-secure-password";

/// What a login attempt comes to, given whether the user exists and how the
/// password check went: the check made against the user's hash, or against
/// the decoy where there is no such user.
pub open spec fn login_result(user_found: bool, check: PasswordCheck) -> Result<(), Errors> {
    if user_found {
        match check {
            PasswordCheck::Accepted => Ok(()),
            PasswordCheck::Rejected => Err(Errors::LoginFailed),
            PasswordCheck::Faulty => Err(Errors::HashError),
        }
    } else {
        match check {
            PasswordCheck::Accepted => Err(Errors::LoginFailed),
            _ => Err(Errors::HashError),
        }
    }
}

/// Decides a login attempt from the outcome of the password check. `Ok`
/// means that a session is to be opened for the user.
pub fn login_outcome(user_found: bool, check: PasswordCheck) -> (r: Result<(), Errors>)
    ensures
        r == login_result(user_found, check),
{
    if user_found {
        match check {
            PasswordCheck::Accepted => Ok(()),
            PasswordCheck::Rejected => Err(Errors::LoginFailed),
            PasswordCheck::Faulty => Err(Errors::HashError),
        }
    } else {
        match check {
            PasswordCheck::Accepted => Err(Errors::LoginFailed),
            _ => Err(Errors::HashError),
        }
    }
}

/// Checks a login attempt: `stored_hash` is the password hash of the user
/// that was named, `None` where there is no such user. An unknown user is
/// refused like a wrong password, after a check of the decoy.
pub fn login(stored_hash: Option<&str>, password: &[u8]) -> (r: Result<(), Errors>)
    ensures
        r == match stored_hash {
            Some(hash) => login_result(true, password_check(password@, hash@)),
            None => login_result(
                false,
                password_check(DECOY_PASSWORD.spec_bytes(), DECOY_HASH@),
            ),
        },
        stored_hash is None ==> r is Err,
{
    match stored_hash {
        Some(hash) => login_outcome(true, check_password(password, hash)),
        None => login_outcome(false, check_password(DECOY_PASSWORD.as_bytes(), DECOY_HASH)),
    }
}

/// What a session says of the one who sent a request.
#[derive(Clone, Copy, Debug, PartialEq, Eq, Structural)]
pub enum SessionLookup {
    /// The session holds the flag, with this value.
    LoggedIn(bool),
    /// The session holds no flag.
    Absent,
    /// The session could not be read.
    Failed,
}

/// What is done with a request to a guarded route.
#[derive(Clone, Copy, Debug, PartialEq, Eq, Structural)]
pub enum Access {
    /// It is passed on.
    Forward,
    /// It is refused: nobody is logged in.
    Unauthenticated,
    /// It is refused: the session could not be read.
    SessionFailure,
}

/// Decides whether a request to a guarded route is passed on: only where the
/// session holds the flag and the flag is set.
pub fn authorize(lookup: SessionLookup) -> (access: Access)
    ensures
        access == match lookup {
            SessionLookup::LoggedIn(true) => Access::Forward,
            SessionLookup::LoggedIn(false) => Access::Unauthenticated,
            SessionLookup::Absent => Access::Unauthenticated,
            SessionLookup::Failed => Access::SessionFailure,
        },
{
    match lookup {
        SessionLookup::LoggedIn(true) => Access::Forward,
        SessionLookup::LoggedIn(false) => Access::Unauthenticated,
        SessionLookup::Absent => Access::Unauthenticated,
        SessionLookup::Failed => Access::SessionFailure,
    }
}


/// The key that signs and encrypts session cookies. Nothing of it is read
/// here; it is made and handed on.
#[verifier::external_type_specification]
#[verifier::external_body]
pub struct ExKey(actix_web::cookie::Key);

/// Fewest bytes that a secret key is made from.
pub const KEY_LENGTH: usize = 64;

/// What `text` holds as standard base64 with padding: the bytes, or where it
/// is no such text, the decoder's words for what is wrong with it.
pub uninterp spec fn base64_decoded(text: Seq<char>) -> Result<Seq<u8>, Seq<char>>;

/// The words in which a key of too few bytes is refused.
pub uninterp spec fn short_key_message(bytes: Seq<u8>) -> Seq<char>;

/// Decodes `text` with `base64::Engine::decode` of the engine
/// `base64::prelude::BASE64_STANDARD`; an error is handed on as the text that
/// it displays. Nothing is proved of the decoder: the contract only gives its
/// result a name.
#[verifier::external_body]
fn decode_base64(text: &str) -> (r: Result<Vec<u8>, String>)
    ensures
        r is Ok <==> base64_decoded(text@) is Ok,
        r is Ok ==> base64_decoded(text@) == Ok::<Seq<u8>, Seq<char>>(r->Ok_0@),
        r is Err ==> base64_decoded(text@) == Err::<Seq<u8>, Seq<char>>(r->Err_0@),
{
    match base64::prelude::BASE64_STANDARD.decode(text) {
        Ok(bytes) => Ok(bytes),
        Err(err) => Err(format!("{err}")),
    }
}

/// Makes the key with `Key::try_from` of `actix_web::cookie`, which takes the
/// first sixty-four bytes and refuses fewer; the refusal is handed on as the
/// text that it displays.
#[verifier::external_body]
fn master_key(bytes: &[u8]) -> (r: Result<actix_web::cookie::Key, String>)
    ensures
        r is Ok <==> bytes@.len() >= KEY_LENGTH,
        r is Err ==> r->Err_0@ == short_key_message(bytes@),
{
    match actix_web::cookie::Key::try_from(bytes) {
        Ok(key) => Ok(key),
        Err(err) => Err(format!("{err}")),
    }
}

/// The message for a secret key that is refused for the reason `reason`.
pub open spec fn invalid_key_text(reason: Seq<char>) -> Seq<char> {
    "Invalid parameter SecretKey: "@ + reason
        + ".Consider using the subcommand gen-key and update your configuration file"@
}

/// Makes the secret key from what decoding the configured text gave: from the
/// bytes where there are enough of them; else the message says why not.
pub fn key_from_decoded(decoded: Result<Vec<u8>, String>) -> (r: Result<
    actix_web::cookie::Key,
    String,
>)
    ensures
        r is Ok <==> decoded is Ok && decoded->Ok_0@.len() >= KEY_LENGTH,
        decoded is Err ==> r is Err && r->Err_0@ == decoded->Err_0@,
        decoded is Ok && decoded->Ok_0@.len() < KEY_LENGTH ==> r is Err && r->Err_0@
            == invalid_key_text(short_key_message(decoded->Ok_0@)),
{
    match decoded {
        Ok(bytes) => match master_key(bytes.as_slice()) {
            Ok(key) => Ok(key),
            Err(reason) => {
                let message = "Invalid parameter SecretKey: ".to_owned().concat(
                    reason.as_str(),
                ).concat(
                    ".Consider using the subcommand gen-key and update your configuration file",
                );
                Err(message)
            },
        },
        Err(reason) => Err(reason),
    }
}

/// Makes the secret key from its configured text, which is base64.
pub fn secret_key(encoded: &str) -> (r: Result<actix_web::cookie::Key, String>)
    ensures
        r is Ok <==> base64_decoded(encoded@) is Ok && base64_decoded(encoded@)->Ok_0.len()
            >= KEY_LENGTH,
        base64_decoded(encoded@) is Err ==> r is Err && r->Err_0@ == base64_decoded(
            encoded@,
        )->Err_0,
        base64_decoded(encoded@) is Ok && base64_decoded(encoded@)->Ok_0.len() < KEY_LENGTH ==> r is Err
            && r->Err_0@ == invalid_key_text(short_key_message(base64_decoded(encoded@)->Ok_0)),
{
    key_from_decoded(decode_base64(encoded))
}

} // verus!
