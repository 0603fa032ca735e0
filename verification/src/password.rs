//! Passwords kept as Argon2id hashes in the PHC string format.
use vstd::prelude::*;
use vstd::string::StringSliceAdditionalSpecFns;
use argon2::{PasswordHasher, PasswordVerifier};
use crate::text;

verus! {

/// The longest password that can be hashed, in bytes.
pub const PASSWORD_MAX_BYTES: u64 = 0xffff_ffff;

/// The error type of `password_hash`.
#[verifier::external_type_specification]
#[verifier::external_body]
pub struct ExPasswordHashError(password_hash::Error);

/// Whether `password_hash::PasswordHash::new` reads a text as a hash.
pub uninterp spec fn phc_parses(phc: Seq<char>) -> bool;

/// Whether `Argon2::verify_password` with the default settings accepts a password for a hash.
pub uninterp spec fn argon2_verifies(phc: Seq<char>, password: Seq<u8>) -> bool;

/// What `Argon2::hash_password` with the default settings makes of a password and a salt.
pub uninterp spec fn argon2_phc(password: Seq<u8>, salt: Seq<char>) -> Option<Seq<char>>;

/// A character of the B64 alphabet.
pub open spec fn is_b64(c: char) -> bool {
    'A' <= c <= 'Z' || 'a' <= c <= 'z' || '0' <= c <= '9' || c == '+' || c == '/'
}

/// Sixteen bytes written in the B64 alphabet: 22 characters, of which the last one has no bits to
/// spare.
pub open spec fn is_salt(salt: Seq<char>) -> bool {
    &&& salt.len() == 22
    &&& forall|i: int| 0 <= i < 22 ==> is_b64(#[trigger] salt[i])
    &&& salt[21] == 'A' || salt[21] == 'Q' || salt[21] == 'g' || salt[21] == 'w'
}

/// `password_hash::PasswordHash::new`: reads a PHC string. Whether it succeeds depends on the text
/// alone.
#[verifier::external_body]
fn check_phc(phc: &str) -> (r: Result<(), password_hash::Error>)
    ensures
        r is Ok == phc_parses(phc@),
{
    password_hash::PasswordHash::new(phc).map(|_| ())
}

/// A parameter of a hash that does not ask for lanes, or asks for them with a number of at most
/// eight digits.
pub open spec fn is_modest(param: Seq<char>) -> bool {
    "p="@.is_prefix_of(param) ==> param.len() <= 10
}

/// Every parameter in a field of a hash is modest.
pub open spec fn is_modest_field(field: Seq<char>) -> bool {
    forall|j: int|
        0 <= j < text::split(field, ',').len() ==> is_modest(#[trigger] text::split(field, ',')[j])
}

/// The hash asks for lanes with a number of at most eight digits. Argon2 has fewer than 2^24 lanes,
/// so that no password is accepted for a hash that asks for more.
pub open spec fn has_few_lanes(phc: Seq<char>) -> bool {
    forall|i: int|
        0 <= i < text::split(phc, '$').len() ==> is_modest_field(#[trigger] text::split(phc, '$')[i])
}

/// `Argon2::verify_password`, on the settings that the hash itself names. The answer depends on
/// the hash and the password alone. It takes the memory that those settings ask for. A hash that
/// asks for so many lanes that eight times their number overflows 32 bits is left out: the call
/// may panic on it.
#[verifier::external_body]
fn argon2_verify(phc: &str, password: &[u8]) -> (r: bool)
    requires
        phc_parses(phc@),
        has_few_lanes(phc@),
    ensures
        r == argon2_verifies(phc@, password@),
{
    match password_hash::PasswordHash::new(phc) {
        Ok(parsed) => argon2::Argon2::default().verify_password(password, &parsed).is_ok(),
        Err(_) => false,
    }
}

/// `Argon2::hash_password` with the default settings, the result written as a PHC string. It
/// depends on the password and the salt alone. The string names the algorithm `argon2id`, asks for
/// one lane, is read as a hash again, and verifies the password that it was made from. It succeeds
/// for salts that write sixteen bytes and passwords of less than 2^32 bytes; which other salts are
/// refused is left unsaid.
#[verifier::external_body]
fn argon2_hash(password: &[u8], salt: &str) -> (r: Result<String, password_hash::Error>)
    ensures
        match r {
            Ok(phc) => {
                &&& argon2_phc(password@, salt@) == Some(phc@)
                &&& "$argon2id$"@.is_prefix_of(phc@)
                &&& phc_parses(phc@)
                &&& has_few_lanes(phc@)
                &&& argon2_verifies(phc@, password@)
            },
            Err(_) => argon2_phc(password@, salt@) is None,
        },
        is_salt(salt@) && password@.len() <= PASSWORD_MAX_BYTES ==> r is Ok,
{
    let salt = password_hash::Salt::from_b64(salt)?;
    argon2::Argon2::default().hash_password(password, salt).map(|hash| hash.to_string())
}

/// `password_hash::SaltString::generate` on the random generator of the operating system: sixteen
/// random bytes, written in the B64 alphabet.
#[verifier::external_body]
fn random_salt() -> (r: String)
    ensures
        is_salt(r@),
{
    password_hash::SaltString::generate(&mut password_hash::rand_core::OsRng).as_str().to_owned()
}

/// Why a password could not be turned into a hash.
pub enum PasswordError {
    /// The configured text begins as an Argon2 hash but cannot be read as one.
    InvalidPhc(password_hash::Error),
    /// Hashing failed.
    Hash(password_hash::Error),
}

/// Hashes a password with a given salt.
pub fn hash_password_with_salt(plaintext: &str, salt: &str) -> (r: Result<String, PasswordError>)
    ensures
        match r {
            Ok(phc) => {
                &&& argon2_phc(plaintext.spec_bytes(), salt@) == Some(phc@)
                &&& is_own_hash(phc@, plaintext.spec_bytes())
            },
            Err(e) => argon2_phc(plaintext.spec_bytes(), salt@) is None && e is Hash,
        },
        is_salt(salt@) && plaintext.spec_bytes().len() <= PASSWORD_MAX_BYTES ==> r is Ok,
{
    match argon2_hash(plaintext.as_bytes(), salt) {
        Ok(phc) => Ok(phc),
        Err(e) => Err(PasswordError::Hash(e)),
    }
}

/// A readable Argon2id hash that verifies the password.
pub open spec fn is_own_hash(phc: Seq<char>, password: Seq<u8>) -> bool {
    &&& "$argon2id$"@.is_prefix_of(phc)
    &&& phc_parses(phc)
    &&& has_few_lanes(phc)
    &&& argon2_verifies(phc, password)
}

/// Hashes a password with a random salt.
pub fn hash_password(plaintext: &str) -> (r: Result<String, PasswordError>)
    ensures
        match r {
            Ok(phc) => {
                &&& is_own_hash(phc@, plaintext.spec_bytes())
                &&& exists|salt: Seq<char>| #[trigger]
                    is_salt(salt) && argon2_phc(plaintext.spec_bytes(), salt) == Some(phc@)
            },
            Err(e) => e is Hash && exists|salt: Seq<char>| #[trigger]
                is_salt(salt) && argon2_phc(plaintext.spec_bytes(), salt) is None,
        },
        plaintext.spec_bytes().len() <= PASSWORD_MAX_BYTES ==> r is Ok,
{
    let salt = random_salt();
    assert(is_salt(salt@));
    hash_password_with_salt(plaintext, &salt)
}

fn modest_field(field: &[char]) -> (r: bool)
    ensures
        r == is_modest_field(field@),
{
    let key = text::chars_of("p=");
    let params = text::split_at_char(field, ',');
    let ghost all = text::split(field@, ',');
    let mut j: usize = 0;
    while j < params.len()
        invariant
            j <= params@.len(),
            key@ == "p="@,
            text::texts(params@) == all,
            all == text::split(field@, ','),
            forall|k: int| 0 <= k < j ==> is_modest(#[trigger] all[k]),
        decreases params@.len() - j,
    {
        assert(all[j as int] == params@[j as int]@);
        if text::starts_with(&params[j], &key) && params[j].len() > 10 {
            assert(!is_modest(all[j as int]));
            return false;
        }
        j += 1;
    }
    true
}

/// Whether a hash asks for lanes with a number of at most eight digits.
fn few_lanes(phc: &str) -> (r: bool)
    ensures
        r == has_few_lanes(phc@),
{
    let fields = text::split_at_char(&text::chars_of(phc), '$');
    let ghost all = text::split(phc@, '$');
    let mut i: usize = 0;
    while i < fields.len()
        invariant
            i <= fields@.len(),
            text::texts(fields@) == all,
            all == text::split(phc@, '$'),
            forall|k: int| 0 <= k < i ==> is_modest_field(#[trigger] all[k]),
        decreases fields@.len() - i,
    {
        assert(all[i as int] == fields@[i as int]@);
        if !modest_field(&fields[i]) {
            return false;
        }
        i += 1;
    }
    true
}

/// Whether the submitted password is the one behind the stored hash; a stored text that cannot be
/// read as a hash, or asks for more lanes than there can be, accepts none.
pub fn verify_password(stored_phc: &str, submitted: &str) -> (r: bool)
    ensures
        r == accepts(stored_phc@, submitted.spec_bytes()),
{
    match check_phc(stored_phc) {
        Ok(()) => few_lanes(stored_phc) && argon2_verify(stored_phc, submitted.as_bytes()),
        Err(_) => false,
    }
}

/// The stored text is a hash that verifies the password.
pub open spec fn accepts(stored: Seq<char>, password: Seq<u8>) -> bool {
    phc_parses(stored) && has_few_lanes(stored) && argon2_verifies(stored, password)
}

/// A configured password that is meant as a hash, not as plain text.
pub open spec fn is_meant_as_hash(api_password: Seq<char>) -> bool {
    "$argon2"@.is_prefix_of(api_password)
}

/// `phc` is the hash for a configured password: the password itself if it is a readable Argon2
/// hash, else a hash of it with a salt of its own.
pub open spec fn is_prepared(api_password: Seq<char>, phc: Seq<char>) -> bool {
    if is_meant_as_hash(api_password) {
        phc_parses(api_password) && phc == api_password
    } else {
        &&& is_own_hash(phc, vstd::utf8::encode_utf8(api_password))
        &&& exists|salt: Seq<char>| #[trigger]
            is_salt(salt) && argon2_phc(vstd::utf8::encode_utf8(api_password), salt) == Some(phc)
    }
}

/// The hash for a configured password.
pub fn prepare_password_hash(api_password: &str) -> (r: Result<String, PasswordError>)
    ensures
        match r {
            Ok(phc) => is_prepared(api_password@, phc@),
            Err(e) => if is_meant_as_hash(api_password@) {
                !phc_parses(api_password@) && e is InvalidPhc
            } else {
                &&& e is Hash
                &&& exists|salt: Seq<char>| #[trigger]
                    is_salt(salt) && argon2_phc(api_password.spec_bytes(), salt) is None
            },
        },
        is_meant_as_hash(api_password@) ==> (r is Ok <==> phc_parses(api_password@)),
        !is_meant_as_hash(api_password@) && api_password.spec_bytes().len() <= PASSWORD_MAX_BYTES
            ==> r is Ok,
{
    if text::starts_with(&text::chars_of(api_password), &text::chars_of("$argon2")) {
        match check_phc(api_password) {
            Ok(()) => Ok(String::from_str(api_password)),
            Err(e) => Err(PasswordError::InvalidPhc(e)),
        }
    } else {
        hash_password(api_password)
    }
}

/// A line without the line breaks at its end.
pub open spec fn without_line_end(line: Seq<char>) -> Seq<char>
    decreases line.len(),
{
    if line.len() > 0 && (line.last() == '\n' || line.last() == '\r') {
        without_line_end(line.drop_last())
    } else {
        line
    }
}

/// The password on a line of input; none if the line is empty.
pub fn password_on_line(line: &str) -> (r: Option<String>)
    ensures
        match r {
            Some(p) => p@ == without_line_end(line@) && p@.len() > 0,
            None => without_line_end(line@).len() == 0,
        },
{
    let chars = text::chars_of(line);
    let mut end: usize = chars.len();
    assert(chars@.take(chars@.len() as int) == chars@);
    while end > 0 && (chars[end - 1] == '\n' || chars[end - 1] == '\r')
        invariant
            end <= chars@.len(),
            without_line_end(chars@.take(end as int)) == without_line_end(chars@),
        decreases end,
    {
        assert(chars@.take(end as int).drop_last() == chars@.take(end - 1));
        end -= 1;
    }
    if end == 0 {
        return None;
    }
    let kept = text::part(&chars, 0, end);
    Some(text::string_of(&kept))
}

/// A hash that was made from a password accepts that password.
pub proof fn own_hash_accepts(phc: Seq<char>, password: Seq<u8>)
    requires
        is_own_hash(phc, password),
    ensures
        accepts(phc, password),
{
}

/// A hash that was made from a password is taken as it stands when it is configured.
pub proof fn own_hash_is_meant_as_hash(phc: Seq<char>, password: Seq<u8>)
    requires
        is_own_hash(phc, password),
    ensures
        is_meant_as_hash(phc) && phc_parses(phc),
{
    reveal_strlit("$argon2");
    reveal_strlit("$argon2id$");
}

/// The hash for a configured plain password is an Argon2id hash that accepts this password, and
/// the hash for a hash, configured or made, is that hash itself.
pub proof fn prepared_hash_is_settled(
    api_password: Seq<char>,
    phc: Seq<char>,
    again: Seq<char>,
)
    requires
        is_prepared(api_password, phc),
    ensures
        !is_meant_as_hash(api_password) ==> "$argon2id$"@.is_prefix_of(phc) && accepts(
            phc,
            vstd::utf8::encode_utf8(api_password),
        ),
        is_prepared(phc, again) <==> again == phc,
{
    if !is_meant_as_hash(api_password) {
        own_hash_is_meant_as_hash(phc, vstd::utf8::encode_utf8(api_password));
    }
}

/// A text that cannot be read as a hash accepts no password.
pub proof fn unreadable_hash_accepts_none(stored: Seq<char>, password: Seq<u8>)
    requires
        !phc_parses(stored),
    ensures
        !accepts(stored, password),
{
}

/// A parameter of a hash that asks for lanes with more than eight digits makes the hash accept no
/// password. Without such a parameter, a password is accepted exactly if the hash is read and
/// verifies it.
pub proof fn hashes_are_judged_by_lanes_and_password(
    stored: Seq<char>,
    password: Seq<u8>,
    i: int,
    j: int,
)
    ensures
        0 <= i < text::split(stored, '$').len() && 0 <= j < text::split(
            text::split(stored, '$')[i],
            ',',
        ).len() && "p="@.is_prefix_of(text::split(text::split(stored, '$')[i], ',')[j])
            && text::split(text::split(stored, '$')[i], ',')[j].len() > "p="@.len() + 8
            ==> !accepts(stored, password),
        (forall|k: int, l: int|
            0 <= k < text::split(stored, '$').len() && 0 <= l < text::split(
                text::split(stored, '$')[k],
                ',',
            ).len() && "p="@.is_prefix_of(
                #[trigger] text::split(text::split(stored, '$')[k], ',')[l],
            ) ==> text::split(text::split(stored, '$')[k], ',')[l].len() <= "p="@.len() + 8) ==> (
        accepts(stored, password) <==> phc_parses(stored) && argon2_verifies(stored, password)),
{
    reveal_strlit("p=");
    let fields = text::split(stored, '$');
    if 0 <= i < fields.len() && 0 <= j < text::split(fields[i], ',').len() && "p="@.is_prefix_of(
        text::split(fields[i], ',')[j],
    ) && text::split(fields[i], ',')[j].len() > 10 {
        assert(!is_modest(text::split(fields[i], ',')[j]));
        assert(!is_modest_field(fields[i]));
    }
    if forall|k: int, l: int|
        0 <= k < fields.len() && 0 <= l < text::split(fields[k], ',').len() && "p="@.is_prefix_of(
            #[trigger] text::split(fields[k], ',')[l],
        ) ==> text::split(fields[k], ',')[l].len() <= "p="@.len() + 8 {
        assert forall|k: int| 0 <= k < fields.len() implies is_modest_field(
            #[trigger] fields[k],
        ) by {
            assert forall|l: int| 0 <= l < text::split(fields[k], ',').len() implies is_modest(
                #[trigger] text::split(fields[k], ',')[l],
            ) by {}
        }
    }
}

/// A configured text is meant as a hash exactly if it begins with `$argon2`; such a text is its own
/// hash if it can be read, and has none if not.
pub proof fn configured_hashes_stand_for_themselves(rest: Seq<char>, t: Seq<char>, phc: Seq<char>)
    ensures
        is_meant_as_hash("$argon2"@ + rest),
        is_meant_as_hash(t) ==> t == "$argon2"@ + t.skip("$argon2"@.len() as int),
        is_prepared("$argon2"@ + rest, phc) <==> phc == "$argon2"@ + rest && phc_parses(phc),
{
    assert("$argon2"@ =~= ("$argon2"@ + rest).subrange(0, "$argon2"@.len() as int));
    if is_meant_as_hash(t) {
        assert(t =~= t.subrange(0, "$argon2"@.len() as int) + t.skip("$argon2"@.len() as int));
    }
}

/// Line feeds and carriage returns are cut off at the end of a line, and nothing else.
pub proof fn line_ends_are_cut(kept: Seq<char>, end: Seq<char>)
    requires
        kept.len() > 0 ==> kept.last() != '\n' && kept.last() != '\r',
        forall|i: int| 0 <= i < end.len() ==> #[trigger] end[i] == '\n' || end[i] == '\r',
    ensures
        without_line_end(kept + end) == kept,
    decreases end.len(),
{
    let line = kept + end;
    if end.len() > 0 {
        line_ends_are_cut(kept, end.drop_last());
        assert(line.drop_last() =~= kept + end.drop_last());
        assert(line.last() == end[end.len() - 1]);
    } else {
        assert(line =~= kept);
    }
}

/// The value of a character of the B64 alphabet.
pub open spec fn b64_value(c: char) -> int {
    if 'A' <= c <= 'Z' {
        c as int - 'A' as int
    } else if 'a' <= c <= 'z' {
        26 + (c as int - 'a' as int)
    } else if '0' <= c <= '9' {
        52 + (c as int - '0' as int)
    } else if c == '+' {
        62
    } else {
        63
    }
}

/// A salt writes sixteen bytes in characters of six bits: as few characters as hold them, and the
/// bits to spare are clear. Passwords are hashed up to the largest length of 32 bits.
pub proof fn salts_write_sixteen_bytes(salt: Seq<char>)
    ensures
        is_salt(salt) <==> 16 * 8 <= 6 * salt.len() < 16 * 8 + 6 && b64_value(salt.last()) % 16 == 0
            && (forall|i: int|
            0 <= i < salt.len() ==> is_b64(#[trigger] salt[i])),
        PASSWORD_MAX_BYTES == u32::MAX,
{
    if 16 * 8 <= 6 * salt.len() < 16 * 8 + 6 && (forall|i: int|
        0 <= i < salt.len() ==> is_b64(#[trigger] salt[i])) {
        assert(is_b64(salt[21]));
    }
}

/// The B64 alphabet has the letters, the digits, plus and slash.
pub proof fn b64_by_code_point(c: char)
    ensures
        is_b64(c) <==> c as int == 0x2b || 0x2f <= c as int <= 0x39 || 0x41 <= c as int <= 0x5a
            || 0x61 <= c as int <= 0x7a,
{
}

/// The hash for a configured plain password was made from it with a salt of sixteen bytes.
pub proof fn plain_passwords_are_hashed_with_a_salt(t: Seq<char>, phc: Seq<char>)
    requires
        !"$argon2"@.is_prefix_of(t),
    ensures
        is_prepared(t, phc) <==> is_own_hash(phc, vstd::utf8::encode_utf8(t)) && exists|
            salt: Seq<char>,
        |
            #[trigger] argon2_phc(vstd::utf8::encode_utf8(t), salt) == Some(phc) && is_salt(salt),
{
    let bytes = vstd::utf8::encode_utf8(t);
    if exists|salt: Seq<char>| #[trigger]
        argon2_phc(bytes, salt) == Some(phc) && is_salt(salt) {
        let salt = choose|salt: Seq<char>| #[trigger]
            argon2_phc(bytes, salt) == Some(phc) && is_salt(salt);
        assert(is_salt(salt) && argon2_phc(bytes, salt) == Some(phc));
    }
    if is_prepared(t, phc) {
        let salt = choose|salt: Seq<char>| #[trigger]
            is_salt(salt) && argon2_phc(bytes, salt) == Some(phc);
        assert(argon2_phc(bytes, salt) == Some(phc) && is_salt(salt));
    }
}

} // verus!
