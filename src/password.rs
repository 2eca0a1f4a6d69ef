//! Checks on passwords and master keys.
use vstd::prelude::*;
use vstd::string::{StrSliceExecFns, StringSliceAdditionalSpecFns};

verus! {

/// Whether Unicode counts `c` as uppercase.
pub uninterp spec fn unicode_uppercase(c: char) -> bool;

/// Whether Unicode counts `c` as lowercase.
pub uninterp spec fn unicode_lowercase(c: char) -> bool;

/// Whether Unicode counts `c` as a letter or a number.
pub uninterp spec fn unicode_alphanumeric(c: char) -> bool;

/// Relies on `char::is_uppercase`, which reads the Unicode `Uppercase` property.
#[verifier::external_body]
fn is_uppercase(c: char) -> (r: bool)
    ensures
        r == unicode_uppercase(c),
{
    c.is_uppercase()
}

/// Relies on `char::is_lowercase`, which reads the Unicode `Lowercase` property.
#[verifier::external_body]
fn is_lowercase(c: char) -> (r: bool)
    ensures
        r == unicode_lowercase(c),
{
    c.is_lowercase()
}

/// Relies on `char::is_alphanumeric`: Unicode letters and numbers.
#[verifier::external_body]
fn is_alphanumeric(c: char) -> (r: bool)
    ensures
        r == unicode_alphanumeric(c),
{
    c.is_alphanumeric()
}

/// The shortest master key, in bytes.
pub const MIN_KEY_LEN: usize = 12;

/// `c` is an ASCII decimal digit.
pub open spec fn is_decimal_digit(c: char) -> bool {
    '0' <= c && c <= '9'
}

/// Some character of `s` satisfies `f`.
pub open spec fn has_char(s: Seq<char>, f: spec_fn(char) -> bool) -> bool {
    exists|i: int| 0 <= i < s.len() && f(#[trigger] s[i])
}

/// `s` holds an uppercase and a lowercase letter, a decimal digit, and a
/// character that is neither letter nor number.
pub open spec fn is_varied(s: Seq<char>) -> bool {
    &&& has_char(s, |c: char| unicode_uppercase(c))
    &&& has_char(s, |c: char| unicode_lowercase(c))
    &&& has_char(s, |c: char| is_decimal_digit(c))
    &&& has_char(s, |c: char| !unicode_alphanumeric(c))
}

/// Why a password was refused.
#[derive(Debug, Clone, Copy, PartialEq, Eq)]
pub enum PasswordError {
    /// Shorter than `MIN_KEY_LEN` bytes.
    TooShort,
    /// Lacks one of the four kinds of characters.
    NotVaried,
}

/// Accepts a password of at least `MIN_KEY_LEN` bytes that holds an
/// uppercase letter, a lowercase letter, a digit and a character that is
/// neither letter nor number.
pub fn validate_password_strength(password: &str) -> (r: Result<(), PasswordError>)
    ensures
        password.spec_bytes().len() < MIN_KEY_LEN ==> r == Err::<(), PasswordError>(
            PasswordError::TooShort,
        ),
        password.spec_bytes().len() >= MIN_KEY_LEN && !is_varied(password@) ==> r == Err::<
            (),
            PasswordError,
        >(PasswordError::NotVaried),
        r is Ok <==> password.spec_bytes().len() >= MIN_KEY_LEN && is_varied(password@),
{
    if password.as_bytes().len() < MIN_KEY_LEN {
        return Err(PasswordError::TooShort);
    }
    let n = password.unicode_len();
    let mut upper = false;
    let mut lower = false;
    let mut digit = false;
    let mut special = false;
    let mut i: usize = 0;
    while i < n
        invariant
            i <= n,
            n == password@.len(),
            upper == has_char(password@.take(i as int), |c: char| unicode_uppercase(c)),
            lower == has_char(password@.take(i as int), |c: char| unicode_lowercase(c)),
            digit == has_char(password@.take(i as int), |c: char| is_decimal_digit(c)),
            special == has_char(password@.take(i as int), |c: char| !unicode_alphanumeric(c)),
        decreases n - i,
    {
        let c = password.get_char(i);
        let ghost before = password@.take(i as int);
        let ghost after = password@.take(i + 1);
        assert(after =~= before.push(c));
        upper = upper || is_uppercase(c);
        lower = lower || is_lowercase(c);
        digit = digit || ('0' <= c && c <= '9');
        special = special || !is_alphanumeric(c);
        proof {
            assert(after[i as int] == c);
            assert forall|j: int| 0 <= j < i implies after[j] == #[trigger] before[j] by {}
        }
        i = i + 1;
    }
    assert(password@.take(n as int) =~= password@);
    if upper && lower && digit && special {
        Ok(())
    } else {
        Err(PasswordError::NotVaried)
    }
}

/// Compares two strings byte by byte, looking at every byte whatever the
/// earlier ones held once the lengths agree.
pub fn secure_compare(a: &str, b: &str) -> (r: bool)
    ensures
        r == (a.spec_bytes() == b.spec_bytes()),
{
    let x = a.as_bytes();
    let y = b.as_bytes();
    if x.len() != y.len() {
        return false;
    }
    let mut acc: u8 = 0;
    let mut i: usize = 0;
    assert(x@.take(0) =~= y@.take(0));
    while i < x.len()
        invariant
            i <= x@.len(),
            x@.len() == y@.len(),
            x@ == a.spec_bytes(),
            y@ == b.spec_bytes(),
            acc == 0 <==> x@.take(i as int) == y@.take(i as int),
        decreases x@.len() - i,
    {
        let p = x[i];
        let q = y[i];
        let ghost old_acc = acc;
        acc = acc | (p ^ q);
        assert(acc == 0 <==> (old_acc == 0 && p == q)) by (bit_vector)
            requires
                acc == old_acc | (p ^ q),
        ;
        proof {
            if old_acc == 0 && p == q {
                assert(x@.take(i + 1) =~= x@.take(i as int).push(p));
                assert(y@.take(i + 1) =~= y@.take(i as int).push(q));
            } else if x@.take(i + 1) == y@.take(i + 1) {
                assert(x@.take(i + 1)[i as int] == p);
                assert(y@.take(i + 1)[i as int] == q);
                assert(x@.take(i as int) =~= x@.take(i + 1).take(i as int));
                assert(y@.take(i as int) =~= y@.take(i + 1).take(i as int));
            }
        }
        i = i + 1;
    }
    assert(x@.take(x@.len() as int) =~= x@);
    assert(y@.take(y@.len() as int) =~= y@);
    acc == 0
}

} // verus!
