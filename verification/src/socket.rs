//! What co-located functions write to each other over a Unix socket.
use vstd::prelude::*;

use crate::decimal::{decimal_int, i32_decimal, i64_decimal};
use crate::text::{chars_of, replace_all, replace_str, str_equal, string_of, trim, trim_chars};

verus! {

/// The text a caller sends to a co-located function to hand it `input`.
pub open spec fn source_request(input: Seq<char>) -> Seq<char> {
    "Data input from source fn "@ + input + " \n"@
}

/// The request that hands `input` to the function behind a socket.
pub fn source_request_of(input: &str) -> (r: String)
    ensures
        r@ == source_request(input@),
{
    let mut r = "Data input from source fn ".to_owned();
    r.append(input);
    r.append(" \n");
    r
}

/// The text a caller sends to hand the number `input` to the function behind a socket.
pub open spec fn number_request(input: int) -> Seq<char> {
    "Data input from fn A "@ + decimal_int(input) + " \n"@
}

/// The request that hands the number `input` to the function behind a socket.
pub fn number_request_of(input: i32) -> (r: String)
    ensures
        r@ == number_request(input as int),
{
    let digits = string_of(&i32_decimal(input));
    let mut r = "Data input from fn A ".to_owned();
    r.append(digits.as_str());
    r.append(" \n");
    r
}

/// The prefix of the answer of a function that reports when it got its input.
pub open spec fn received_prefix() -> Seq<char> {
    "Received from client at : "@
}

/// The answer of a function that got its input at `time`.
pub open spec fn received_at(time: Seq<char>) -> Seq<char> {
    received_prefix() + time
}

/// The answer of a function that got its input at `time` (a timestamp text).
pub fn received_at_of(time: &str) -> (r: String)
    ensures
        r@ == received_at(time@),
{
    let mut r = "Received from client at : ".to_owned();
    r.append(time);
    r
}

/// What the caller keeps of the answer: the answer without the reception
/// prefix and without line feeds.
pub open spec fn cleaned_reply(reply: Seq<char>) -> Seq<char> {
    replace_all(replace_all(reply, received_prefix(), seq![]), "\n"@, seq![])
}

/// The answer of the function behind the socket, as the caller keeps it.
pub fn clean_reply(reply: &str) -> (r: String)
    ensures
        r@ == cleaned_reply(reply@),
{
    proof {
        reveal_strlit("Received from client at : ");
        reveal_strlit("\n");
        reveal_strlit("");
    }
    assert(""@ =~= seq![]);
    let without_prefix = replace_str(reply, "Received from client at : ", "");
    replace_str(without_prefix.as_str(), "\n", "")
}

/// The answer a socket server sends with the result of the module it ran.
pub open spec fn result_reply(result: int) -> Seq<char> {
    "hello world from from fnB socket server. Result from Module B : "@ + decimal_int(result)
}

/// The answer carrying `result`.
pub fn result_reply_of(result: i32) -> (r: String)
    ensures
        r@ == result_reply(result as int),
{
    let digits = string_of(&i32_decimal(result));
    let mut r = "hello world from from fnB socket server. Result from Module B : ".to_owned();
    r.append(digits.as_str());
    r
}

/// The answer a socket server of the messaging shim sends with the module's result.
pub open spec fn module_reply(result: int) -> Seq<char> {
    "hello world from fnB socket server. Result from Module B: "@ + decimal_int(result)
}

/// The answer of the messaging shim's socket server carrying `result`.
pub fn module_reply_of(result: i64) -> (r: String)
    ensures
        r@ == module_reply(result as int),
{
    let digits = string_of(&i64_decimal(result));
    let mut r = "hello world from fnB socket server. Result from Module B: ".to_owned();
    r.append(digits.as_str());
    r
}

/// The request that tells a socket server to stop.
pub open spec fn exit_request() -> Seq<char> {
    "exit"@
}

/// The request that tells a socket server to stop.
pub fn exit_request_of() -> (r: String)
    ensures
        r@ == exit_request(),
{
    "exit".to_owned()
}

/// Whether a line read by a socket server is the stop request.
pub fn is_exit_line(line: &str) -> (b: bool)
    ensures
        b == (line@ == exit_request()),
{
    str_equal(line, "exit")
}

/// The input that a socket server takes from the line it read: the line
/// without leading and trailing white space.
pub fn client_input(line: &str) -> (input: String)
    ensures
        input@ == trim(line@),
{
    string_of(&trim_chars(&chars_of(line)))
}

/// The number that a caller hands on: its own id plus its input. The sum must
/// fit in an `i32`.
pub fn forwarded_input(fn_id: i32, fn_input: i32) -> (n: i32)
    requires
        i32::MIN <= fn_id + fn_input <= i32::MAX,
    ensures
        n == fn_id + fn_input,
{
    fn_id + fn_input
}

/// The result of a call: the caller's id, its input and the callee's result
/// added up. The sum must fit in an `i32`.
pub fn combined_result(fn_id: i32, fn_input: i32, callee_result: i32) -> (n: i32)
    requires
        i32::MIN <= fn_id + fn_input <= i32::MAX,
        i32::MIN <= fn_id + fn_input + callee_result <= i32::MAX,
    ensures
        n == fn_id + fn_input + callee_result,
{
    fn_id + fn_input + callee_result
}

} // verus!

verus! {

/// The answer to a call is read back as the time it carries: a socket server
/// answers `"Received from client at : "` followed by the time of reception,
/// and the caller, cleaning the answer, keeps exactly that time (a text on
/// one line, which does not itself hold the prefix).
pub proof fn law_received_reply_round_trip(time: Seq<char>)
    requires
        forall|i: int| 0 <= i < time.len() ==> time[i] != '\n',
        !crate::text::contains_seq(time, received_prefix()),
    ensures
        cleaned_reply(received_at(time)) == time,
{
    reveal_strlit("Received from client at : ");
    reveal_strlit("\n");
    crate::text::lemma_replace_all_leading(time, received_prefix(), seq![]);
    crate::text::lemma_replace_all_absent(time, received_prefix(), seq![]);
    assert(seq![] + time =~= time);
    assert("\n"@ =~= seq!['\n']);
    crate::text::lemma_no_char_not_contained(time, '\n');
    crate::text::lemma_replace_all_absent(time, "\n"@, seq![]);
}

} // verus!

verus! {

pub proof fn lemma_skip_non_digits_prefix(p: Seq<char>, d: Seq<char>, i: int)
    requires
        0 <= i <= p.len(),
        forall|k: int| 0 <= k < p.len() ==> !crate::decimal::is_ascii_digit(#[trigger] p[k]),
        d.len() > 0,
        crate::decimal::is_ascii_digit(d[0]),
    ensures
        crate::patterns::skip_non_digits(p + d, i) == p.len(),
    decreases p.len() - i,
{
    let s = p + d;
    if i < p.len() {
        assert(s[i] == p[i]);
        lemma_skip_non_digits_prefix(p, d, i + 1);
    } else {
        assert(s[i] == d[0]);
    }
}

/// The number a socket server answers is the number the caller reads: for a
/// result that is not negative, the answer `"... Result from Module B : "`
/// followed by the result is ASCII text, and removing its first run of
/// non-digits then reading an `i32` gives the result back. (A negative result
/// loses its sign: `-5` is read as `5`.)
pub proof fn law_result_reply_number(result: i32)
    requires
        result >= 0,
    ensures
        vstd::utf8::is_ascii_chars(result_reply(result as int)),
        parse_i32_of_reply(result_reply(result as int)) == Some(result),
{
    reveal_strlit("hello world from from fnB socket server. Result from Module B : ");
    let p = "hello world from from fnB socket server. Result from Module B : "@;
    let d = crate::decimal::decimal_nat(result as nat);
    crate::decimal::lemma_decimal_nat(result as nat);
    assert(d == decimal_int(result as int));
    let s = p + d;
    assert(forall|k: int| 0 <= k < p.len() ==> !crate::decimal::is_ascii_digit(#[trigger] p[k]));
    assert(crate::decimal::is_ascii_digit(d[0]));
    lemma_skip_non_digits_prefix(p, d, 0);
    assert(!crate::decimal::is_ascii_digit(s[0]));
    assert(crate::patterns::skip_digits(s, 0) == 0);
    assert(s.subrange(0, 0) + s.subrange(p.len() as int, s.len() as int) =~= d);
    crate::decimal::law_parse_reads_decimal(result);
    assert forall|k: int| 0 <= k < s.len() implies '\0' <= #[trigger] s[k] <= '\u{7f}' by {
        if k >= p.len() {
            assert(s[k] == d[k - p.len()]);
        }
    }
}

/// What the caller reads from an ASCII answer: the answer without its first
/// run of non-digits, read as an `i32`.
pub open spec fn parse_i32_of_reply(reply: Seq<char>) -> Option<i32> {
    crate::decimal::parse_i32(crate::patterns::without_first_non_digit_run(reply))
}

} // verus!
