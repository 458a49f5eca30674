//! Password hashing and verification.
//!
//! A stored password hash is the ASCII string `salt:digest`, where `salt` is a
//! fresh random alphanumeric string of [`SALT_LEN`] characters and `digest` is
//! the final `$`-delimited segment (the raw base64 digest) of the argon2id
//! encoding of the password under fixed, process-wide cost parameters.
//! Verification re-derives the digest from the plaintext password and the
//! stored salt and compares; it never fails on malformed input, it just
//! returns `false`.

use rand::Rng;
use vstd::prelude::*;

verus! {

use vstd::string::StrSliceExecFns;
use vstd::string::StringExecFns;
use vstd::string::StringExecFnsIsAscii;
use vstd::utf8::is_ascii_chars;

/// Length, in characters, of the random salt in front of each stored digest.
pub const SALT_LEN: usize = 12;

/// Upper bound on the length of a password handed to the hashing algorithm;
/// its length fields are 32 bits wide, and a character encodes to at most
/// four bytes.
pub const MAX_PASSWORD_LEN: usize = 0x3FFF_FFFF;

/// Memory cost (KiB) of the hashing algorithm, fixed process-wide.
pub const CRYPTO_MEM: u32 = 4096;

/// Time cost (passes) of the hashing algorithm, fixed process-wide.
pub const CRYPTO_TIME: u32 = 10;

/// Parallelism (lanes) of the hashing algorithm, fixed process-wide.
pub const CRYPTO_LANES: u32 = 4;

/// Length in bytes of the raw hash output, fixed process-wide.
pub const CRYPTO_LEN: u32 = 32;

pub open spec fn is_alnum(c: char) -> bool {
    ('0' <= c && c <= '9') || ('a' <= c && c <= 'z') || ('A' <= c && c <= 'Z')
}

/// A well-formed salt: exactly [`SALT_LEN`] alphanumeric characters.
pub open spec fn is_salt(s: Seq<char>) -> bool {
    &&& s.len() == SALT_LEN
    &&& forall|i: int| 0 <= i < s.len() ==> is_alnum(#[trigger] s[i])
}

/// The base64 digest segment that argon2id produces for the given password
/// and salt under the crate's fixed cost parameters.
pub uninterp spec fn argon2_digest(password: Seq<char>, salt: Seq<char>) -> Seq<char>;

/// The stored form of a password hash: `salt:digest`.
pub open spec fn hash_format(salt: Seq<char>, digest: Seq<char>) -> Seq<char> {
    salt + seq![':'] + digest
}

/// What `password_verify` decides: the stored string consists of a salt of
/// [`SALT_LEN`] ASCII characters none of which is `:`, then `:`, then exactly
/// the digest that the password yields under that salt.
pub open spec fn verify_spec(stored: Seq<char>, password: Seq<char>) -> bool {
    &&& stored.len() > SALT_LEN
    &&& (forall|i: int| 0 <= i < SALT_LEN ==> #[trigger] stored[i] != ':')
    &&& stored[SALT_LEN as int] == ':'
    &&& is_ascii_chars(stored.subrange(0, SALT_LEN as int))
    &&& stored.subrange(SALT_LEN + 1, stored.len() as int) == argon2_digest(
        password,
        stored.subrange(0, SALT_LEN as int),
    )
}

proof fn lemma_alnum_ascii(c: char)
    requires
        is_alnum(c),
    ensures
        '\0' <= c <= '\u{7f}',
        c != ':',
{
}

/// Relies on rand's `Alphanumeric` distribution: every sampled byte is an
/// ASCII alphanumeric character, and exactly `length` of them are collected.
#[verifier::external_body]
pub fn rand_str(length: usize) -> (r: String)
    ensures
        r@.len() == length,
        forall|i: int| 0 <= i < r@.len() ==> is_alnum(#[trigger] r@[i]),
{
    rand::thread_rng().sample_iter(&rand::distributions::Alphanumeric).take(length).map(
        char::from,
    ).collect()
}

/// Relies on argon2::hash_encoded (rust-argon2): with the fixed cost
/// parameters and a salt of 8 to 2^32 - 1 bytes it returns
/// `$argon2id$v=19$m=...,t=...,p=...$<base64 salt>$<base64 digest>`, where the
/// digest is a function of the password bytes, the salt bytes and the cost
/// parameters alone. The body hands back the final `$`-delimited segment,
/// i.e. the base64 digest, named [`argon2_digest`].
#[verifier::external_body]
fn argon2_digest_str(password: &str, salt: &str) -> (r: String)
    requires
        password@.len() <= MAX_PASSWORD_LEN,
        salt.is_ascii(),
        8 <= salt@.len() <= MAX_PASSWORD_LEN,
    ensures
        r@ == argon2_digest(password@, salt@),
{
    let config = argon2::Config {
        ad: &[], hash_length: CRYPTO_LEN, lanes: CRYPTO_LANES, mem_cost: CRYPTO_MEM,
        secret: &[], thread_mode: argon2::ThreadMode::Parallel, time_cost: CRYPTO_TIME,
        variant: argon2::Variant::Argon2id, version: argon2::Version::Version13,
    };
    let encoded = argon2::hash_encoded(password.as_bytes(), salt.as_bytes(), &config)
        .expect("argon2 parameters are valid");
    let digest = encoded.rsplit('$').next().expect("encoded hash is never empty");
    digest.to_owned()
}

/// Law: a stored hash built from any well-formed salt for a password
/// verifies against that same password.
pub proof fn lemma_hash_round_trip(password: Seq<char>, salt: Seq<char>)
    requires
        is_salt(salt),
    ensures
        verify_spec(hash_format(salt, argon2_digest(password, salt)), password),
{
    let stored = hash_format(salt, argon2_digest(password, salt));
    assert forall|i: int| 0 <= i < SALT_LEN implies #[trigger] stored[i] != ':' by {
        lemma_alnum_ascii(salt[i]);
    }
    assert forall|i: int| 0 <= i < SALT_LEN implies '\0' <= #[trigger] stored.subrange(
        0,
        SALT_LEN as int,
    )[i] <= '\u{7f}' by {
        lemma_alnum_ascii(salt[i]);
    }
    assert(stored.subrange(0, SALT_LEN as int) =~= salt);
    assert(stored.subrange(SALT_LEN + 1, stored.len() as int) =~= argon2_digest(password, salt));
}

/// Law: one password hashed under two different well-formed salts gives two
/// different stored strings, and both verify against that password.
pub proof fn lemma_distinct_salts_distinct_hashes(
    password: Seq<char>,
    salt1: Seq<char>,
    salt2: Seq<char>,
)
    requires
        is_salt(salt1),
        is_salt(salt2),
        salt1 != salt2,
    ensures
        hash_format(salt1, argon2_digest(password, salt1)) != hash_format(
            salt2,
            argon2_digest(password, salt2),
        ),
        verify_spec(hash_format(salt1, argon2_digest(password, salt1)), password),
        verify_spec(hash_format(salt2, argon2_digest(password, salt2)), password),
{
    lemma_hash_round_trip(password, salt1);
    lemma_hash_round_trip(password, salt2);
    let stored1 = hash_format(salt1, argon2_digest(password, salt1));
    let stored2 = hash_format(salt2, argon2_digest(password, salt2));
    if stored1 == stored2 {
        assert(stored1.subrange(0, SALT_LEN as int) =~= salt1);
        assert(stored2.subrange(0, SALT_LEN as int) =~= salt2);
        assert(salt1 == salt2);
    }
}

/// Salts and hashes a password: draws a fresh random salt of [`SALT_LEN`]
/// alphanumeric characters and returns `salt:digest`.
pub fn hash_password(password: &str) -> (r: String)
    requires
        password@.len() <= MAX_PASSWORD_LEN,
    ensures
        verify_spec(r@, password@),
        exists|salt: Seq<char>|
            is_salt(salt) && r@ == hash_format(salt, argon2_digest(password@, salt)),
{
    let salt = rand_str(SALT_LEN);
    proof {
        assert forall|i: int| 0 <= i < salt@.len() implies '\0' <= #[trigger] salt@[i]
            <= '\u{7f}' by {
            lemma_alnum_ascii(salt@[i]);
        }
    }
    let digest = argon2_digest_str(password, salt.as_str());
    let ghost salt_view = salt@;
    let mut out = salt;
    out.append(":");
    out.append(digest.as_str());
    proof {
        reveal_strlit(":");
        assert(out@ =~= hash_format(salt_view, argon2_digest(password@, salt_view)));
        lemma_hash_round_trip(password@, salt_view);
    }
    out
}

/// Verifies a plaintext password against a stored `salt:digest` string by
/// re-deriving the digest from the stored salt. Malformed stored input never
/// raises; it yields `false`.
pub fn password_verify(password_hash: &str, password: &str) -> (r: bool)
    requires
        password@.len() <= MAX_PASSWORD_LEN,
    ensures
        r == verify_spec(password_hash@, password@),
{
    let n = password_hash.unicode_len();
    if n <= SALT_LEN {
        return false;
    }
    let mut i: usize = 0;
    while i < SALT_LEN
        invariant
            0 <= i <= SALT_LEN,
            n == password_hash@.len(),
            n > SALT_LEN,
            forall|j: int| 0 <= j < i ==> #[trigger] password_hash@[j] != ':',
        decreases SALT_LEN - i,
    {
        if password_hash.get_char(i) == ':' {
            return false;
        }
        i += 1;
    }
    if password_hash.get_char(SALT_LEN) != ':' {
        return false;
    }
    let salt = password_hash.substring_char(0, SALT_LEN);
    if !salt.is_ascii() {
        return false;
    }
    let digest = password_hash.substring_char(SALT_LEN + 1, n);
    let recomputed = argon2_digest_str(password, salt);
    let stored_digest = digest.to_owned();
    recomputed == stored_digest
}

} // verus!
