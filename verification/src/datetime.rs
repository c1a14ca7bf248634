//! The time of a transaction.
use crate::text::is_one_line;
use vstd::prelude::*;

verus! {

/// The form in which audit logs write the time of a transaction.
pub const AUDIT_LOG_FORMAT: &'static str = "%d/%b/%Y:%H:%M:%S %z";

/// The time that chrono reads in a text of the given form, as chrono writes it; `None` where it
/// reads none.
pub uninterp spec fn datetime_text(text: Seq<char>, format: Seq<char>) -> Option<Seq<char>>;

/// `DateTime::parse_from_str` of chrono; the time that was read is handed on as the text that
/// `Display` gives for it. What is read and written goes by the name `datetime_text`; it is made of
/// digits, signs, colons, dots and spaces, so it has no line feed in it.
#[verifier::external_body]
fn parse_datetime(text: &str, format: &str) -> (r: Option<String>)
    ensures
        r.deep_view() == datetime_text(text@, format@),
        r matches Some(datetime) ==> is_one_line(datetime@),
{
    let datetime = chrono::DateTime::parse_from_str(text, format).ok()?;
    Some(datetime.to_string())
}

/// The time that an audit log entry gives, in the form in which it is logged.
pub open spec fn logged_datetime(text: Seq<char>) -> Option<Seq<char>> {
    datetime_text(text, AUDIT_LOG_FORMAT@)
}

/// The time is what chrono reads in the form of the day, the month by its short name, the year, the
/// time of day and the offset from universal time, and is logged as chrono writes it.
pub proof fn law_the_time_is_what_chrono_reads(text: Seq<char>)
    ensures
        logged_datetime(text) == datetime_text(text, "%d/%b/%Y:%H:%M:%S %z"@),
{
}

/// Reads the time that an audit log entry gives.
pub fn read_datetime(text: &str) -> (datetime: Option<String>)
    ensures
        datetime.deep_view() == logged_datetime(text@),
        datetime matches Some(datetime) ==> is_one_line(datetime@),
{
    parse_datetime(text, AUDIT_LOG_FORMAT)
}

} // verus!
