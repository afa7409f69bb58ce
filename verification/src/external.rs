//! Wrappers around functions of outside crates, and of std items that vstd
//! gives no specification. Verus trusts the contracts stated here; the doc
//! comment of each item names the function relied on.

use chrono::Datelike;
use chrono::Timelike;
use vstd::prelude::*;

verus! {

/// Relies on `String::push`: appends the given character to the end of the
/// string.
pub assume_specification[ String::push ](s: &mut String, ch: char)
    ensures
        final(s)@ == old(s)@.push(ch),
;

/// The slug that `slug::slugify` derives from a string. The crate maps each
/// character through a fixed transliteration table and collapses everything
/// else into single hyphens, so the result is a function of the characters
/// alone.
pub uninterp spec fn slug_of(s: Seq<char>) -> Seq<char>;

/// Relies on `slug::slugify`: a URL- and filename-safe form of the input,
/// derived from its characters alone.
#[verifier::external_body]
pub(crate) fn slugify(s: &str) -> (r: String)
    ensures
        r@ == slug_of(s@),
{
    slug::slugify(s)
}

/// Relies on `chrono::Local::now` and the `Datelike` / `Timelike` accessors
/// of the resulting timestamp: year, month, day, hour, minute, second, in
/// this order. The accessors' documented ranges are stated; nothing more can
/// be promised of the current time.
#[verifier::external_body]
pub(crate) fn now_parts() -> (r: (i32, u32, u32, u32, u32, u32))
    ensures
        1 <= r.1 <= 12,
        1 <= r.2 <= 31,
        r.3 <= 23,
        r.4 <= 59,
        r.5 <= 59,
{
    let now = chrono::Local::now();
    (now.year(), now.month(), now.day(), now.hour(), now.minute(), now.second())
}

} // verus!
