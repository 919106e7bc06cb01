//! The credential codec: turns plaintext passwords into self-describing
//! Argon2id hashes in PHC string form and checks candidates against them.

use argon2::password_hash::{PasswordHash, Salt, SaltString};
use argon2::{Algorithm, Argon2, Params, PasswordHasher, PasswordVerifier, Version};
use rand::rngs::OsRng;
use rand::RngCore;
use vstd::prelude::*;

use crate::error::DirectoryError;
use crate::text::{compare_ids, Order};

verus! {

/// Memory cost of new hashes, in KiB blocks.
pub const MEMORY_COST_KIB: u32 = 65536;

/// Number of passes of new hashes.
pub const TIME_COST: u32 = 3;

/// Degree of parallelism of new hashes.
pub const PARALLELISM: u32 = 4;

#[verifier::external_type_specification]
#[verifier::external_body]
pub struct ExPasswordHash<'a>(PasswordHash<'a>);

/// Whether `PasswordHash::new` accepts the string as an encoded hash.
pub uninterp spec fn phc_parses(s: Seq<char>) -> bool;

/// Whether Argon2 verification accepts the password against the encoded hash.
pub uninterp spec fn argon2_accepts(password: Seq<char>, encoded: Seq<char>) -> bool;

/// The parameters of an encoded hash in order, each name with its value read
/// as a decimal (`None` where it is not one); empty when it does not parse.
pub uninterp spec fn phc_params(encoded: Seq<char>) -> Seq<(Seq<char>, Option<u32>)>;

/// The Argon2id (version 0x13) digest of the password under the Base64 salt
/// and the costs, in unpadded Base64.
pub uninterp spec fn argon2id_digest(
    password: Seq<char>,
    salt: Seq<char>,
    m_cost: u32,
    t_cost: u32,
    p_cost: u32,
) -> Seq<char>;

/// The parameter is a `p` whose decimal value exceeds Argon2's largest
/// parallelism.
pub open spec fn excess_param(e: (Seq<char>, Option<u32>)) -> bool {
    e.0 == "p"@ && match e.1 {
        Some(v) => v > MAX_PARALLELISM,
        None => false,
    }
}

/// Some parameter named `p` declares a decimal parallelism above Argon2's
/// largest.
pub open spec fn excess_parallelism(params: Seq<(Seq<char>, Option<u32>)>) -> bool {
    exists|i: int| 0 <= i < params.len() && excess_param(#[trigger] params[i])
}

/// Argon2's largest degree of parallelism; stored hashes that declare more
/// can never verify.
pub const MAX_PARALLELISM: u32 = 0xFFFFFF;

/// What verifying a password against a stored credential yields.
pub open spec fn verify_outcome(password: Seq<char>, encoded: Seq<char>) -> Result<
    bool,
    DirectoryError,
> {
    if !phc_parses(encoded) {
        Err(DirectoryError::MalformedCredential)
    } else if excess_parallelism(phc_params(encoded)) {
        Ok(false)
    } else {
        Ok(argon2_accepts(password, encoded))
    }
}

/// A character of the standard Base64 alphabet.
pub open spec fn is_b64_char(c: char) -> bool {
    let u = c as u32;
    (0x41 <= u && u <= 0x5a) || (0x61 <= u && u <= 0x7a) || (0x30 <= u && u <= 0x39) || c == '+'
        || c == '/'
}

/// Sixteen bytes in unpadded standard Base64: 22 characters, the last of
/// which carries only two bits.
pub open spec fn valid_salt(s: Seq<char>) -> bool {
    &&& s.len() == 22
    &&& forall|i: int| 0 <= i < 21 ==> is_b64_char(#[trigger] s[i])
    &&& (s[21] == 'A' || s[21] == 'Q' || s[21] == 'g' || s[21] == 'w')
}

/// Short enough for Argon2: at most 2^30 - 1 characters, hence at most
/// 2^32 - 4 bytes of UTF-8.
pub open spec fn password_fits(p: Seq<char>) -> bool {
    p.len() <= 0x3FFF_FFFF
}

/// A decimal digit.
pub open spec fn digit(d: nat) -> char {
    "0123456789"@[d as int]
}

/// The decimal rendering of `n`, without leading zeros.
pub open spec fn decimal(n: nat) -> Seq<char>
    decreases n,
{
    if n < 10 {
        seq![digit(n)]
    } else {
        decimal(n / 10).push(digit(n % 10))
    }
}

/// The start of an Argon2id (version 0x13) PHC string with the given costs
/// and salt; the digest follows it.
pub open spec fn phc_head(m_cost: u32, t_cost: u32, p_cost: u32, salt: Seq<char>) -> Seq<char> {
    "$argon2id$v=19$m="@ + decimal(m_cost as nat) + ",t="@ + decimal(t_cost as nat) + ",p="@
        + decimal(p_cost as nat) + "$"@ + salt + "$"@
}

/// `h` is the credential for `plain` made with this library's costs under the
/// salt `salt`: algorithm, costs and salt spelled out, then the digest; and it
/// verifies against `plain`.
pub open spec fn hash_under(plain: Seq<char>, salt: Seq<char>, h: Seq<char>) -> bool {
    &&& h == phc_head(MEMORY_COST_KIB, TIME_COST, PARALLELISM, salt) + argon2id_digest(
        plain,
        salt,
        MEMORY_COST_KIB,
        TIME_COST,
        PARALLELISM,
    )
    &&& verify_outcome(plain, h) == Ok::<bool, DirectoryError>(true)
}

/// `h` is a credential for `plain` made with this library's costs under some
/// well-formed salt.
pub open spec fn fresh_credential(plain: Seq<char>, h: Seq<char>) -> bool {
    exists|salt: Seq<char>| valid_salt(salt) && #[trigger] hash_under(plain, salt, h)
}

/// Relies on password_hash's `PasswordHash::new`: parses a PHC string,
/// succeeding exactly on the strings that `phc_parses` names.
#[verifier::external_body]
fn parse_phc<'a>(s: &'a str) -> (r: Option<PasswordHash<'a>>)
    ensures
        r is Some <==> phc_parses(s@),
        s@.len() == 0 || s@[0] != '$' ==> r is None,
{
    PasswordHash::new(s).ok()
}

/// Relies on password_hash's `PasswordHash::new` and on `ParamsString::iter`
/// over the parsed parameters, each value read by `Value::decimal`: every
/// parameter in order, duplicates included.
#[verifier::external_body]
fn declared_params(encoded: &str) -> (r: Vec<(String, Option<u32>)>)
    ensures
        r@.map_values(|e: (String, Option<u32>)| (e.0@, e.1)) == phc_params(encoded@),
{
    let mut out = Vec::new();
    if let Ok(h) = PasswordHash::new(encoded) {
        for (name, value) in h.params.iter() {
            out.push((name.as_str().to_owned(), value.decimal().ok()));
        }
    }
    out
}

/// Relies on argon2's `PasswordVerifier::verify_password` (on
/// `Argon2::default()`, which takes algorithm, version and costs from the
/// hash) applied to what `PasswordHash::new` parses from `encoded`. Rebuilding
/// the costs (`TryFrom<&PasswordHash> for Params`) takes the last `p` given and
/// computes `8 * p`, which overflows for 2^29 or more; hashes with any `p`
/// above Argon2's largest parallelism are left out.
#[verifier::external_body]
fn argon2_verify(password: &str, encoded: &str) -> (r: Option<bool>)
    requires
        !excess_parallelism(phc_params(encoded@)),
    ensures
        r == (if phc_parses(encoded@) {
            Some(argon2_accepts(password@, encoded@))
        } else {
            None
        }),
{
    match PasswordHash::new(encoded) {
        Ok(h) => Some(Argon2::default().verify_password(password.as_bytes(), &h).is_ok()),
        Err(_) => None,
    }
}

/// Relies on rand's `OsRng::try_fill_bytes` for sixteen random bytes and on
/// password_hash's `SaltString::encode_b64`, which writes them as 22
/// characters of unpadded standard Base64. `None` when the operating system
/// cannot supply randomness.
#[verifier::external_body]
fn fresh_salt() -> (r: Option<String>)
    ensures
        r matches Some(s) ==> valid_salt(s@),
{
    let mut bytes = [0u8; Salt::RECOMMENDED_LENGTH];
    match OsRng.try_fill_bytes(&mut bytes) {
        Ok(()) => {},
        Err(_) => return None,
    }
    match SaltString::encode_b64(&bytes) {
        Ok(salt) => Some(salt.as_str().to_owned()),
        Err(_) => None,
    }
}

/// Relies on argon2's `PasswordHasher::hash_password` on an Argon2id,
/// version 0x13 context built from `Params::new(m_cost, t_cost, p_cost, None)`,
/// with the salt read by `SaltString::from_b64`, rendered as a PHC string by
/// password_hash's `Display`. That string is algorithm, version, costs and
/// salt followed by the digest, parses back with exactly the parameters
/// `m`, `t` and `p` (`ParamsString::try_from(&Params)`), and verification of
/// the same password against it succeeds, as it recomputes the digest with the
/// salt and costs that the string carries. Hashing fails only on costs that
/// `Params::new` refuses, a salt that does not decode, or a password longer
/// than 2^32 - 1 bytes. `Params::new` computes `8 * p_cost`, hence the bound.
#[verifier::external_body]
fn argon2id_hash(password: &str, salt: &str, m_cost: u32, t_cost: u32, p_cost: u32) -> (r:
    Option<String>)
    requires
        1 <= p_cost <= MAX_PARALLELISM,
    ensures
        r matches Some(h) ==> {
            &&& phc_parses(h@)
            &&& argon2_accepts(password@, h@)
            &&& phc_params(h@) == seq![
                ("m"@, Some(m_cost)),
                ("t"@, Some(t_cost)),
                ("p"@, Some(p_cost)),
            ]
            &&& h@ == phc_head(m_cost, t_cost, p_cost, salt@) + argon2id_digest(
                password@,
                salt@,
                m_cost,
                t_cost,
                p_cost,
            )
        },
        valid_salt(salt@) && password_fits(password@) && 8 <= m_cost && 8 * p_cost <= m_cost && 1
            <= t_cost ==> r is Some,
{
    let salt = match SaltString::from_b64(salt) {
        Ok(s) => s,
        Err(_) => return None,
    };
    let params = match Params::new(m_cost, t_cost, p_cost, None) {
        Ok(p) => p,
        Err(_) => return None,
    };
    let hasher = Argon2::new(Algorithm::Argon2id, Version::V0x13, params);
    match hasher.hash_password(password.as_bytes(), &salt) {
        Ok(h) => Some(h.to_string()),
        Err(_) => None,
    }
}

/// Draws a fresh random salt; `HashingFailed` when the operating system
/// cannot supply randomness.
pub fn draw_salt() -> (r: Result<String, DirectoryError>)
    ensures
        r matches Ok(s) ==> valid_salt(s@),
        r matches Err(e) ==> e == DirectoryError::HashingFailed,
{
    match fresh_salt() {
        Some(s) => Ok(s),
        None => Err(DirectoryError::HashingFailed),
    }
}

/// Hashes a plaintext password under the given salt with the fixed costs.
/// With a well-formed salt and a password that fits this always succeeds.
pub fn hash_with_salt(plain: &str, salt: &str) -> (r: Result<String, DirectoryError>)
    ensures
        r matches Ok(h) ==> hash_under(plain@, salt@, h@),
        r matches Err(e) ==> e == DirectoryError::HashingFailed,
        valid_salt(salt@) && password_fits(plain@) ==> r is Ok,
{
    match argon2id_hash(plain, salt, MEMORY_COST_KIB, TIME_COST, PARALLELISM) {
        Some(h) => Ok(h),
        None => Err(DirectoryError::HashingFailed),
    }
}

/// Hashes a plaintext password under a fresh random salt with the fixed
/// costs. The result always verifies against the same password; two calls
/// differ by their salts. `HashingFailed` comes only when no salt can be
/// drawn or the password is too long for Argon2.
pub fn hash_password(plain: &str) -> (r: Result<String, DirectoryError>)
    ensures
        r matches Ok(h) ==> fresh_credential(plain@, h@),
        r matches Err(e) ==> e == DirectoryError::HashingFailed,
{
    let salt = match draw_salt() {
        Ok(s) => s,
        Err(e) => {
            return Err(e);
        },
    };
    let r = hash_with_salt(plain, salt.as_str());
    proof {
        if r is Ok {
            assert(valid_salt(salt@) && hash_under(plain@, salt@, r->Ok_0@));
        }
    }
    r
}

/// Checks a plaintext candidate against an encoded hash: `Ok(false)` on a
/// wrong password, and on a hash that declares a parallelism beyond Argon2's
/// largest in any `p` parameter; `MalformedCredential` when the hash does not
/// parse.
pub fn verify_password(plain: &str, encoded: &str) -> (r: Result<bool, DirectoryError>)
    ensures
        r == verify_outcome(plain@, encoded@),
{
    let params = declared_params(encoded);
    let ghost view = params@.map_values(|e: (String, Option<u32>)| (e.0@, e.1));
    let mut i: usize = 0;
    while i < params.len()
        invariant
            i <= params@.len(),
            view == phc_params(encoded@),
            view == params@.map_values(|e: (String, Option<u32>)| (e.0@, e.1)),
            forall|j: int| 0 <= j < i ==> !excess_param(#[trigger] view[j]),
        decreases params@.len() - i,
    {
        let excess = match params[i].1 {
            Some(v) => v > MAX_PARALLELISM,
            None => false,
        };
        let is_p = compare_ids(params[i].0.as_str(), "p") == Order::Equal;
        proof {
            assert(view[i as int] == (params@[i as int].0@, params@[i as int].1));
        }
        if excess && is_p {
            proof {
                assert(excess_param(view[i as int]));
                assert(excess_parallelism(view));
            }
            return match parse_phc(encoded) {
                Some(_) => Ok(false),
                None => Err(DirectoryError::MalformedCredential),
            };
        }
        i = i + 1;
    }
    match argon2_verify(plain, encoded) {
        Some(ok) => Ok(ok),
        None => Err(DirectoryError::MalformedCredential),
    }
}

/// Parses a stored credential, or reports it as malformed.
pub fn parse_credential<'a>(encoded: &'a str) -> (r: Result<PasswordHash<'a>, DirectoryError>)
    ensures
        r is Ok <==> phc_parses(encoded@),
        r matches Err(e) ==> e == DirectoryError::MalformedCredential,
{
    match parse_phc(encoded) {
        Some(h) => Ok(h),
        None => Err(DirectoryError::MalformedCredential),
    }
}

} // verus!
