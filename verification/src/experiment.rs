//! The experiment that runs a function pair and measures the time between the
//! moment the first starts its transfer and the moment the second reads it.
use vstd::prelude::*;
use vstd::utf8::{decode_utf8, valid_utf8};

use crate::text::{chars_of, first_containing, first_line_containing, lines_of, string_of, utf8_text};
use crate::timing::{duration_millis, extract_timestamp, is_valid_instant, line_timestamp, millis_since};

verus! {

/// The marker of the line in which the sending function logs its start.
pub open spec fn sender_marker() -> Seq<char> {
    "start transfer at"@
}

/// The marker of the line in which the receiving function logs its reception.
pub open spec fn receiver_marker() -> Seq<char> {
    "Args read at"@
}

/// The marker that the sending function's log line holds.
pub fn sender_marker_of() -> (m: String)
    ensures
        m@ == sender_marker(),
{
    "start transfer at".to_owned()
}

/// The marker that the receiving function's log line holds.
pub fn receiver_marker_of() -> (m: String)
    ensures
        m@ == receiver_marker(),
{
    "Args read at".to_owned()
}

/// The first line of a function's output (UTF-8 text) that holds `marker`.
pub fn marked_line(output: Vec<u8>, marker: &str) -> (r: Option<String>)
    requires
        valid_utf8(output@),
    ensures
        r matches Some(l) ==> first_containing(lines_of(decode_utf8(output@)), marker@) == Some(
            l@,
        ),
        r is None ==> first_containing(lines_of(decode_utf8(output@)), marker@) is None,
{
    match utf8_text(output) {
        None => None,
        Some(text) => {
            proof {
                vstd::utf8::encode_utf8_decode_utf8(text@);
            }
            match first_line_containing(&chars_of(text.as_str()), &chars_of(marker)) {
                Some(line) => Some(string_of(&line)),
                None => None,
            }
        },
    }
}

/// The milliseconds between the instants logged in the two lines, when both hold one.
pub open spec fn logged_span(sender_line: Seq<char>, receiver_line: Seq<char>) -> Option<i64> {
    match (line_timestamp(sender_line), line_timestamp(receiver_line)) {
        (Some(start), Some(end)) => Some(millis_since(end, start)),
        _ => None,
    }
}

/// The milliseconds from the instant in the sender's line to the instant in
/// the receiver's line; `None` where a line holds no instant.
pub fn transfer_millis(sender_line: &str, receiver_line: &str) -> (r: Option<i64>)
    ensures
        r == logged_span(sender_line@, receiver_line@),
{
    match extract_timestamp(sender_line) {
        None => None,
        Some(start) => match extract_timestamp(receiver_line) {
            None => None,
            Some(end) => Some(duration_millis(start, end)),
        },
    }
}

} // verus!
