//! What the library reads from its surroundings: the clock, the local time
//! zone, the user's name and the platform's error codes. Each item here
//! calls std or an outside crate; where the result depends on the moment,
//! the machine or the account, only what holds of every outcome is claimed.

use vstd::prelude::*;

verus! {

/// The last second (UTC, counted from the Unix epoch) that chrono can
/// represent: 262142-12-31T23:59:59Z, the end of `NaiveDate::MAX`.
pub open spec fn last_supported_second() -> int {
    8_210_266_876_799
}

/// Whether position `i` of `s` holds an ASCII digit.
pub open spec fn digit_at(s: Seq<char>, i: int) -> bool {
    '0' <= s[i] && s[i] <= '9'
}

/// The year of a date as chrono writes it: four digits for the years 0 to
/// 9999, otherwise a sign and the digits (here `+` and five or six of them).
pub open spec fn is_year_stamp(y: Seq<char>) -> bool {
    ||| y.len() == 4 && (forall|i: int| 0 <= i < 4 ==> digit_at(y, i))
    ||| (y.len() == 6 || y.len() == 7) && y[0] == '+' && (forall|i: int| 1 <= i < y.len() ==> digit_at(y, i))
}

/// A local date written `YYYY-MM-DD` (`%Y-%m-%d`), the year as
/// `is_year_stamp` describes.
pub open spec fn is_date_stamp(s: Seq<char>) -> bool {
    &&& s.len() >= 10
    &&& is_year_stamp(s.subrange(0, s.len() - 6))
    &&& s[s.len() - 6] == '-'
    &&& digit_at(s, s.len() - 5) && digit_at(s, s.len() - 4)
    &&& s[s.len() - 3] == '-'
    &&& digit_at(s, s.len() - 2) && digit_at(s, s.len() - 1)
}

/// The length of the date at the start of a time stamp: ten characters for
/// a four-digit year, twelve or thirteen for a signed year of five or six
/// digits.
pub open spec fn stamp_date_len(s: Seq<char>) -> int {
    if s.len() > 0 && s[0] == '+' {
        if s.len() > 6 && s[6] == '-' {
            12
        } else {
            13
        }
    } else {
        10
    }
}

/// A local time in RFC 3339 form: the date, `T`, `HH:MM:SS`, an optional
/// fraction of a second, and the offset `+HH:MM` or `-HH:MM`.
pub open spec fn is_rfc3339_stamp(s: Seq<char>) -> bool {
    let d = stamp_date_len(s);
    &&& s.len() >= d + 15
    &&& is_date_stamp(s.subrange(0, d))
    &&& s[d] == 'T'
    &&& digit_at(s, d + 1) && digit_at(s, d + 2)
    &&& s[d + 3] == ':'
    &&& digit_at(s, d + 4) && digit_at(s, d + 5)
    &&& s[d + 6] == ':'
    &&& digit_at(s, d + 7) && digit_at(s, d + 8)
    &&& (s[s.len() - 6] == '+' || s[s.len() - 6] == '-')
    &&& digit_at(s, s.len() - 5) && digit_at(s, s.len() - 4)
    &&& s[s.len() - 3] == ':'
    &&& digit_at(s, s.len() - 2) && digit_at(s, s.len() - 1)
}

/// The system clock, from `std::time::SystemTime::now()`, as the time since
/// the Unix epoch (`Ok`) or before it (`Err`), in whole seconds and the
/// nanoseconds past them. The reading depends on the clock; only the bound
/// std documents for the nanoseconds (`Duration::subsec_nanos`, below one
/// billion) is claimed.
#[verifier::external_body]
pub(crate) fn system_clock() -> (r: Result<(u64, u32), (u64, u32)>)
    ensures
        match r {
            Ok((_, n)) => n < 1_000_000_000,
            Err((_, n)) => n < 1_000_000_000,
        },
{
    match std::time::SystemTime::now().duration_since(std::time::UNIX_EPOCH) {
        Ok(after) => Ok((after.as_secs(), after.subsec_nanos())),
        Err(before) => Err((before.duration().as_secs(), before.duration().subsec_nanos())),
    }
}

/// The UTC instant `secs` seconds and `nanos` nanoseconds after the Unix
/// epoch, shown in the local time zone in RFC 3339 form, from chrono
/// (`DateTime::from_timestamp`, `with_timezone(&Local)`, `to_rfc3339`).
/// Within the supported seconds the instant exists, its local year lies
/// between 1969 and 262143, and chrono writes the form `is_rfc3339_stamp`
/// describes; the time zone decides the rest, which is not claimed. chrono
/// stops with a panic when the machine's time-zone data gives no offset for
/// the instant; that depends on the machine, so no `requires` can leave it
/// out.
#[verifier::external_body]
pub(crate) fn local_rfc3339(secs: i64, nanos: u32) -> (r: String)
    requires
        0 <= secs <= last_supported_second(),
        nanos < 1_000_000_000,
    ensures
        is_rfc3339_stamp(r@),
{
    chrono::DateTime::from_timestamp(secs, nanos).unwrap().with_timezone(&chrono::Local).to_rfc3339()
}

/// The name of the logged-in user, from `whoami::username()` (which falls
/// back to a default name when the system gives none). It depends on the
/// account; nothing is claimed of it.
#[verifier::external_body]
pub(crate) fn username() -> (r: String) {
    whoami::username()
}

/// The platform's "cross-device link" error number, `libc::EXDEV`. Its value
/// depends on the platform; nothing is claimed of it.
#[verifier::external_body]
pub(crate) fn exdev_code() -> (r: i32) {
    libc::EXDEV
}

} // verus!
