//! Internationalized Domain Names in Applications (RFC 3490): conversion
//! of domain name labels between Unicode and their ASCII (Punycode) form.

use vstd::prelude::*;
use vstd::string::*;
use vstd::utf8::is_ascii_chars;

use crate::text::chars_of;

verus! {

/// Indicates an error in encoding or decoding Punycode data.
#[derive(Copy, Clone, Debug, PartialEq, Eq, Structural)]
pub struct Error;

/// The ASCII form that UTS 46 processing gives a domain, if it succeeds.
pub uninterp spec fn idna_ascii(s: Seq<char>) -> Option<Seq<char>>;

/// The Unicode form that UTS 46 processing gives a domain, if it succeeds.
pub uninterp spec fn idna_unicode(s: Seq<char>) -> Option<Seq<char>>;

/// Relies on `idna::domain_to_ascii`: UTS 46 "to ASCII" processing, whose
/// outcome depends on the text alone.
#[verifier::external_body]
fn domain_to_ascii(s: &str) -> (r: Option<String>)
    ensures
        match idna_ascii(s@) {
            Some(t) => r matches Some(x) && x@ == t,
            None => r is None,
        },
{
    idna::domain_to_ascii(s).ok()
}

/// Relies on `idna::domain_to_unicode`: UTS 46 "to Unicode" processing,
/// whose outcome depends on the text alone.
#[verifier::external_body]
fn domain_to_unicode(s: &str) -> (r: Option<String>)
    ensures
        match idna_unicode(s@) {
            Some(t) => r matches Some(x) && x@ == t,
            None => r is None,
        },
{
    match idna::domain_to_unicode(s) {
        (t, Ok(())) => Some(t),
        (_, Err(_)) => None,
    }
}

/// The ASCII form of a label or host: the text itself when it is already
/// ASCII, else its IDNA conversion.
pub open spec fn ascii_form(s: Seq<char>) -> Option<Seq<char>> {
    if is_ascii_chars(s) {
        Some(s)
    } else {
        idna_ascii(s)
    }
}

/// Whether `s` begins, in any letter case, with the Punycode prefix `xn--`.
pub open spec fn starts_punycode(s: Seq<char>) -> bool {
    &&& s.len() >= 4
    &&& (s[0] == 'x' || s[0] == 'X')
    &&& (s[1] == 'n' || s[1] == 'N')
    &&& s[2] == '-'
    &&& s[3] == '-'
}

/// Whether some `.`-separated label of `s` is in Punycode form.
pub open spec fn has_punycode_label(s: Seq<char>) -> bool {
    exists|i: int|
        0 <= i < s.len() && (i == 0 || s[i - 1] == '.') && #[trigger] starts_punycode(s.skip(i))
}

/// The Unicode form of a label or host: the text itself unless some label
/// is in Punycode form, else its IDNA conversion.
pub open spec fn unicode_form(s: Seq<char>) -> Option<Seq<char>> {
    if has_punycode_label(s) {
        idna_unicode(s)
    } else {
        Some(s)
    }
}

/// Converts a label or host to its ASCII format. If the string is already
/// ASCII, it is returned unmodified. If an error is encountered in encoding,
/// `Err` is returned.
pub fn to_ascii(s: &str) -> (r: Result<String, Error>)
    ensures
        match ascii_form(s@) {
            Some(t) => r matches Ok(x) && x@ == t,
            None => r == Err::<String, Error>(Error),
        },
{
    if s.is_ascii() {
        Ok(s.to_owned())
    } else {
        match domain_to_ascii(s) {
            Some(t) => Ok(t),
            None => Err(Error),
        }
    }
}

/// Converts a label or host to its Unicode format. If the string is not an
/// internationalized domain name, it is returned unmodified. If an error
/// is encountered in decoding, `Err` is returned.
pub fn to_unicode(s: &str) -> (r: Result<String, Error>)
    ensures
        match unicode_form(s@) {
            Some(t) => r matches Ok(x) && x@ == t,
            None => r == Err::<String, Error>(Error),
        },
{
    if contains_punycode_label(s) {
        match domain_to_unicode(s) {
            Some(t) => Ok(t),
            None => Err(Error),
        }
    } else {
        Ok(s.to_owned())
    }
}

/// Returns whether some `.`-separated label of `s` is in Punycode form.
fn contains_punycode_label(s: &str) -> (r: bool)
    ensures
        r == has_punycode_label(s@),
{
    let v = chars_of(s);
    let n = v.len();
    let mut i: usize = 0;
    while i < n
        invariant
            v@ == s@,
            n == v@.len(),
            i <= n,
            forall|j: int|
                0 <= j < i && (j == 0 || s@[j - 1] == '.') ==> !#[trigger] starts_punycode(
                    s@.skip(j),
                ),
        decreases n - i,
    {
        if i == 0 || v[i - 1] == '.' {
            if 4 <= n - i && (v[i] == 'x' || v[i] == 'X') && (v[i + 1] == 'n' || v[i + 1] == 'N')
                && v[i + 2] == '-' && v[i + 3] == '-' {
                assert(starts_punycode(s@.skip(i as int)));
                return true;
            }
            assert(!starts_punycode(s@.skip(i as int)));
        }
        i = i + 1;
    }
    false
}

/// Text that is already ASCII is its own ASCII form, so `to_ascii` leaves
/// what it returns for ASCII input unchanged when applied again.
pub proof fn lemma_ascii_idempotent(s: Seq<char>)
    requires
        is_ascii_chars(s),
    ensures
        ascii_form(s) == Some(s),
{
}

/// Text with no label in Punycode form is its own Unicode form, so
/// `to_unicode` leaves such text unchanged however often it is applied.
pub proof fn lemma_unicode_idempotent(s: Seq<char>)
    requires
        !has_punycode_label(s),
    ensures
        unicode_form(s) == Some(s),
{
}

} // verus!
