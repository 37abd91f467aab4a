//! The pagination protocol of the ledger's HTTP API, as a pure decision.
//!
//! Every paginated response carries an embedded `records` array, and may
//! carry a `next` link and a `status` field.  The caller fetches pages and
//! hands each page's shape to [`page_step`], which says whether to follow
//! the decoded `next` link, to stop with what was accumulated, or to stop
//! with a classified error.

use crate::error::StellarErr;
use crate::numeral::{digit_val, is_hex_digit};
use vstd::prelude::*;
use vstd::utf8::is_ascii_chars;

verus! {

/// What one page of a paginated query tells the caller to do next.
#[derive(Debug)]
pub enum PageStep {
    /// Fetch this URL next.
    Next(String),
    /// End of data: return what was accumulated.
    Finished,
    /// Stop with this error.
    Failed(StellarErr),
}

impl PartialEq for PageStep {
    fn eq(&self, other: &PageStep) -> (r: bool) {
        match (self, other) {
            (PageStep::Next(a), PageStep::Next(b)) => *a == *b,
            (PageStep::Finished, PageStep::Finished) => true,
            (PageStep::Failed(a), PageStep::Failed(b)) => *a == *b,
            _ => false,
        }
    }
}

impl vstd::std_specs::cmp::PartialEqSpecImpl for PageStep {
    open spec fn obeys_eq_spec() -> bool {
        true
    }

    open spec fn eq_spec(&self, other: &PageStep) -> bool {
        match (self, other) {
            (PageStep::Next(a), PageStep::Next(b)) => a@ == b@,
            (PageStep::Finished, PageStep::Finished) => true,
            (PageStep::Failed(a), PageStep::Failed(b)) => a == b,
            _ => false,
        }
    }
}

/// Whether a `next` link can be percent-decoded: ASCII text whose every `%`
/// is followed by two hexadecimal digits.
pub open spec fn url_decodable(s: Seq<char>) -> bool {
    &&& is_ascii_chars(s)
    &&& forall|i: int|
        0 <= i < s.len() && #[trigger] s[i] == '%' ==> i + 2 < s.len() && is_hex_digit(s[i + 1])
            && is_hex_digit(s[i + 2])
}

/// The percent-decoding of `s`: each `%` and the two hexadecimal digits
/// after it become the byte they spell; every other character stays.
pub open spec fn url_decoded(s: Seq<char>) -> Seq<char>
    decreases s.len(),
{
    if s.len() == 0 {
        Seq::<char>::empty()
    } else if s[0] == '%' && s.len() >= 3 {
        seq![(((digit_val(s[1]) * 16 + digit_val(s[2])) as u8) as char)] + url_decoded(s.skip(3))
    } else {
        seq![s[0]] + url_decoded(s.skip(1))
    }
}

/// Relies on urldecode::decode: replaces each `%XY` by the byte `XY` and
/// keeps every other character.  The function indexes characters by byte
/// positions and unwraps its hexadecimal parses, so it is called only on
/// ASCII text whose every `%` is followed by two hexadecimal digits; there
/// it returns exactly the percent-decoding.
#[verifier::external_body]
fn url_decode(s: &str) -> (r: String)
    requires
        url_decodable(s@),
    ensures
        r@ == url_decoded(s@),
{
    urldecode::decode(s.to_string())
}

/// Tests whether a `next` link can be percent-decoded.
pub fn check_url_decodable(s: &str) -> (r: bool)
    ensures
        r == url_decodable(s@),
{
    if !s.is_ascii() {
        return false;
    }
    let n = s.unicode_len();
    let mut i: usize = 0;
    while i < n
        invariant
            i <= n,
            n == s@.len(),
            is_ascii_chars(s@),
            forall|k: int|
                0 <= k < i && #[trigger] s@[k] == '%' ==> k + 2 < s@.len() && is_hex_digit(
                    s@[k + 1],
                ) && is_hex_digit(s@[k + 2]),
        decreases n - i,
    {
        if s.get_char(i) == '%' {
            if n - i <= 2 {
                return false;
            }
            let a = crate::numeral::char_to_val(s.get_char(i + 1));
            let b = crate::numeral::char_to_val(s.get_char(i + 2));
            if a.is_none() || b.is_none() {
                return false;
            }
        }
        i = i + 1;
    }
    true
}

/// Maps an error status of a paginated response to its classified error:
/// 400 is a malformed account id, 404 an unknown account, anything else an
/// unclassified failure.
pub fn status_error(code: u64) -> (r: StellarErr)
    ensures
        code == 400 ==> r == StellarErr::InvalidPublicKey,
        code == 404 ==> r == StellarErr::AccountNotFound,
        code != 400 && code != 404 ==> r == StellarErr::Unknown,
{
    if code == 400 {
        StellarErr::InvalidPublicKey
    } else if code == 404 {
        StellarErr::AccountNotFound
    } else {
        StellarErr::Unknown
    }
}

/// One step of the pagination protocol.  With a `next` link, an empty page
/// ends the data and a non-empty one continues at the percent-decoded link;
/// a link that cannot be decoded is an unclassified failure.  Without a
/// `next` link, a `status` field classifies the failure, and its absence
/// ends the data.
pub fn page_step(records_empty: bool, next: &Option<String>, status: &Option<u64>) -> (r: PageStep)
    ensures
        match next {
            Some(u) => {
                if records_empty {
                    r == PageStep::Finished
                } else if url_decodable(u@) {
                    r matches PageStep::Next(d) && d@ == url_decoded(u@)
                } else {
                    r == PageStep::Failed(StellarErr::Unknown)
                }
            },
            None => match status {
                Some(code) => {
                    &&& *code == 400 ==> r == PageStep::Failed(StellarErr::InvalidPublicKey)
                    &&& *code == 404 ==> r == PageStep::Failed(StellarErr::AccountNotFound)
                    &&& *code != 400 && *code != 404 ==> r == PageStep::Failed(StellarErr::Unknown)
                },
                None => r == PageStep::Finished,
            },
        },
{
    match next {
        Some(u) => {
            if records_empty {
                PageStep::Finished
            } else if check_url_decodable(u.as_str()) {
                PageStep::Next(url_decode(u.as_str()))
            } else {
                PageStep::Failed(StellarErr::Unknown)
            }
        },
        None => match status {
            Some(code) => PageStep::Failed(status_error(*code)),
            None => PageStep::Finished,
        },
    }
}

} // verus!
