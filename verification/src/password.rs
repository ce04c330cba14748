//! Password hashes: made by Argon2 from a password and a salt that is part of
//! the configuration, and compared without stopping at the first difference.

use vstd::prelude::*;
use vstd::string::*;
use argon2::password_hash::SaltString;
use argon2::{Argon2, PasswordHasher};
use crate::error::SessionError;

verus! {

/// The hash string that Argon2, with its default parameters, gives for a
/// password and a salt in B64, or `None` where it refuses the salt or fails.
pub uninterp spec fn argon2_phc(password: Seq<char>, salt: Seq<char>) -> Option<Seq<char>>;

/// Calls `SaltString::from_b64` on the salt and `Argon2::default().hash_password`
/// on the password's bytes and that salt, and gives the hash as a string. The
/// contract claims only that the result is a function of the two texts: the
/// same password and salt give the same hash string, or fail alike.
#[verifier::external_body]
fn argon2_hash(password: &str, salt: &str) -> (r: Option<String>)
    ensures
        r.is_some() == argon2_phc(password@, salt@).is_some(),
        r matches Some(h) ==> argon2_phc(password@, salt@) == Some(h@),
{
    let salt = SaltString::from_b64(salt).ok()?;
    let hash = Argon2::default().hash_password(password.as_bytes(), &salt).ok()?;
    Some(hash.to_string())
}

/// What hashing answers for each result of Argon2.
pub open spec fn hashed(phc: Option<Seq<char>>) -> Result<Seq<char>, SessionError> {
    match phc {
        Some(h) => Ok(h),
        None => Err(SessionError::PasswordHash),
    }
}

/// The hash to store for a password, or `PasswordHash` where it cannot be made.
pub fn hash_password(password: &str, salt: &str) -> (r: Result<String, SessionError>)
    ensures
        match r {
            Ok(h) => hashed(argon2_phc(password@, salt@)) == Ok::<Seq<char>, SessionError>(h@),
            Err(e) => hashed(argon2_phc(password@, salt@)) == Err::<Seq<char>, SessionError>(e),
        },
{
    match argon2_hash(password, salt) {
        Some(h) => Ok(h),
        None => Err(SessionError::PasswordHash),
    }
}

/// Whether two texts are the same, found without stopping at the first
/// difference: the time taken depends on the lengths alone.
pub fn same_text_steady(a: &str, b: &str) -> (r: bool)
    ensures
        r == (a@ == b@),
{
    let n = a.unicode_len();
    if n != b.unicode_len() {
        return false;
    }
    let mut differ = false;
    let mut i: usize = 0;
    while i < n
        invariant
            n == a@.len(),
            n == b@.len(),
            i <= n,
            differ == (exists|j: int| 0 <= j < i && a@[j] != b@[j]),
        decreases n - i,
    {
        let x = a.get_char(i);
        let y = b.get_char(i);
        let ghost before = differ;
        if x != y {
            differ = true;
        }
        proof {
            if before {
                let j = choose|j: int| 0 <= j < i && a@[j] != b@[j];
                assert(0 <= j < i + 1 && a@[j] != b@[j]);
            }
            if x != y {
                assert(0 <= i < i + 1 && a@[i as int] != b@[i as int]);
            }
        }
        i += 1;
    }
    proof {
        if !differ {
            assert(a@ =~= b@);
        }
    }
    !differ
}

/// What a password check answers, given the stored hash and what hashing the
/// password offered gave: `PasswordHash` where hashing failed, which is told
/// apart from `InvalidCredentials` where the hashes differ.
pub open spec fn password_verdict(stored: Seq<char>, computed: Option<Seq<char>>) -> Result<
    (),
    SessionError,
> {
    match computed {
        None => Err(SessionError::PasswordHash),
        Some(h) => if h == stored {
            Ok(())
        } else {
            Err(SessionError::InvalidCredentials)
        },
    }
}

/// Compares the stored hash with the hash of the password offered.
pub fn check_password(stored: &str, computed: &Option<String>) -> (r: Result<(), SessionError>)
    ensures
        r == password_verdict(
            stored@,
            match computed {
                Some(h) => Some(h@),
                None => None,
            },
        ),
{
    match computed {
        None => Err(SessionError::PasswordHash),
        Some(h) => {
            if same_text_steady(h.as_str(), stored) {
                Ok(())
            } else {
                Err(SessionError::InvalidCredentials)
            }
        },
    }
}

/// Hashes the password offered with the salt and compares it with the stored
/// hash.
pub fn verify_password(stored: &str, password: &str, salt: &str) -> (r: Result<(), SessionError>)
    ensures
        r == password_verdict(stored@, argon2_phc(password@, salt@)),
{
    let computed = argon2_hash(password, salt);
    check_password(stored, &computed)
}

} // verus!
