//! Character-level string functions with their specifications.
//!
//! Every function here works on the characters of a string (its view,
//! a `Seq<char>`), and states its result over a spec function.
use vstd::prelude::*;
use vstd::utf8::{encode_utf8, valid_utf8};

verus! {

/// `p` occurs in `s` starting at position `i`.
pub open spec fn occurs_at(s: Seq<char>, i: int, p: Seq<char>) -> bool {
    0 <= i && i + p.len() <= s.len() && s.subrange(i, i + p.len()) == p
}

/// `s` with every occurrence of the non-empty `from` replaced by `to`,
/// the occurrences taken left to right without overlap (as `str::replace` does).
pub open spec fn replace_all(s: Seq<char>, from: Seq<char>, to: Seq<char>) -> Seq<char>
    decreases s.len(),
{
    if from.len() == 0 || s.len() < from.len() {
        s
    } else if s.subrange(0, from.len() as int) == from {
        to + replace_all(s.subrange(from.len() as int, s.len() as int), from, to)
    } else {
        seq![s[0]] + replace_all(s.subrange(1, s.len() as int), from, to)
    }
}

/// `String::push`: appends the character `c` to `s`.
#[verifier::external_body]
fn push_char(s: &mut String, c: char)
    ensures
        final(s)@ == old(s)@.push(c),
{
    s.push(c);
}

/// Calls `String::from_utf8`: the text whose UTF-8 encoding is `bytes`, if
/// they are valid UTF-8 (an error otherwise, as its documentation says).
#[verifier::external_body]
pub(crate) fn utf8_text(bytes: Vec<u8>) -> (r: Option<String>)
    ensures
        r is Some <==> valid_utf8(bytes@),
        r matches Some(s) ==> encode_utf8(s@) == bytes@,
{
    String::from_utf8(bytes).ok()
}

/// The characters of `s`, in order.
pub fn chars_of(s: &str) -> (v: Vec<char>)
    ensures
        v@ == s@,
{
    let mut v: Vec<char> = Vec::new();
    for c in it: s.chars()
        invariant
            v@ == it.seq().take(it.index() as int),
            it.seq() == s@,
    {
        v.push(c);
    }
    v
}

/// The string made of the characters `v`, in order.
pub fn string_of(v: &Vec<char>) -> (s: String)
    ensures
        s@ == v@,
{
    let mut s = String::new();
    let mut i: usize = 0;
    while i < v.len()
        invariant
            i <= v.len(),
            s@ == v@.take(i as int),
        decreases v.len() - i,
    {
        push_char(&mut s, v[i]);
        i += 1;
        assert(s@ =~= v@.take(i as int));
    }
    assert(v@.take(v.len() as int) =~= v@);
    s
}

/// Appends the characters of `src` to `out`.
pub fn append_chars(out: &mut Vec<char>, src: &Vec<char>)
    ensures
        final(out)@ == old(out)@ + src@,
{
    let mut i: usize = 0;
    while i < src.len()
        invariant
            i <= src.len(),
            out@ == old(out)@ + src@.take(i as int),
        decreases src.len() - i,
    {
        out.push(src[i]);
        i += 1;
        assert(out@ =~= old(out)@ + src@.take(i as int));
    }
    assert(src@.take(src.len() as int) =~= src@);
}

/// Whether `p` occurs in `s` at position `i`.
pub fn occurs_at_exec(s: &Vec<char>, i: usize, p: &Vec<char>) -> (b: bool)
    requires
        i <= s.len(),
    ensures
        b == occurs_at(s@, i as int, p@),
{
    if p.len() > s.len() - i {
        return false;
    }
    let mut k: usize = 0;
    while k < p.len()
        invariant
            k <= p.len(),
            i + p.len() <= s.len(),
            forall|j: int| 0 <= j < k ==> s@[i + j] == p@[j],
        decreases p.len() - k,
    {
        if s[i + k] != p[k] {
            assert(s@.subrange(i as int, i + p.len())[k as int] != p@[k as int]);
            return false;
        }
        k += 1;
    }
    assert(s@.subrange(i as int, i + p.len()) =~= p@);
    true
}

/// The characters of `s` with every occurrence of `from` replaced by `to`.
pub fn replace_all_chars(s: &Vec<char>, from: &Vec<char>, to: &Vec<char>) -> (r: Vec<char>)
    requires
        from.len() > 0,
    ensures
        r@ == replace_all(s@, from@, to@),
{
    let mut out: Vec<char> = Vec::new();
    let mut i: usize = 0;
    assert(s@.subrange(0, s.len() as int) =~= s@);
    assert(out@ + replace_all(s@, from@, to@) =~= replace_all(s@, from@, to@));
    while i < s.len()
        invariant
            i <= s.len(),
            from.len() > 0,
            out@ + replace_all(s@.subrange(i as int, s.len() as int), from@, to@) == replace_all(
                s@,
                from@,
                to@,
            ),
        decreases s.len() - i,
    {
        let ghost rest = s@.subrange(i as int, s.len() as int);
        let ghost old_out = out@;
        if occurs_at_exec(s, i, from) {
            assert(rest.subrange(0, from.len() as int) =~= s@.subrange(
                i as int,
                i + from.len(),
            ));
            assert(rest.subrange(from.len() as int, rest.len() as int) =~= s@.subrange(
                i + from.len(),
                s.len() as int,
            ));
            append_chars(&mut out, to);
            i += from.len();
            assert(old_out + replace_all(rest, from@, to@) =~= out@ + replace_all(
                s@.subrange(i as int, s.len() as int),
                from@,
                to@,
            ));
        } else {
            let c = s[i];
            out.push(c);
            i += 1;
            let ghost tail = s@.subrange(i as int, s.len() as int);
            assert(rest.subrange(1, rest.len() as int) =~= tail);
            proof {
                if rest.len() < from@.len() {
                    assert(replace_all(tail, from@, to@) == tail);
                    assert(rest =~= seq![c] + tail);
                } else {
                    assert(rest.subrange(0, from@.len() as int) != from@) by {
                        assert(rest.subrange(0, from@.len() as int) =~= s@.subrange(
                            (i - 1) as int,
                            (i - 1) + from@.len(),
                        ));
                    }
                }
            }
            assert(old_out + replace_all(rest, from@, to@) =~= out@ + replace_all(
                tail,
                from@,
                to@,
            ));
        }
    }
    assert(out@ =~= replace_all(s@, from@, to@));
    out
}

/// `s` with every occurrence of `from` replaced by `to` (`str::replace`).
pub fn replace_str(s: &str, from: &str, to: &str) -> (r: String)
    requires
        from@.len() > 0,
    ensures
        r@ == replace_all(s@, from@, to@),
{
    let sv = chars_of(s);
    let fv = chars_of(from);
    let tv = chars_of(to);
    let rv = replace_all_chars(&sv, &fv, &tv);
    string_of(&rv)
}


/// `p` occurs somewhere in `s` (`str::contains`).
pub open spec fn contains_seq(s: Seq<char>, p: Seq<char>) -> bool {
    exists|i: int| occurs_at(s, i, p)
}

/// Whether `p` occurs in `s`.
pub fn contains_chars(s: &Vec<char>, p: &Vec<char>) -> (b: bool)
    ensures
        b == contains_seq(s@, p@),
{
    if p.len() > s.len() {
        assert forall|j: int| !occurs_at(s@, j, p@) by {}
        return false;
    }
    if p.len() == 0 {
        assert(occurs_at(s@, 0, p@)) by {
            assert(s@.subrange(0, 0) =~= p@);
        }
        return true;
    }
    let last = s.len() - p.len();
    let mut i: usize = 0;
    while i <= last
        invariant
            last == s.len() - p.len(),
            0 < p.len() <= s.len(),
            forall|j: int| 0 <= j < i ==> !occurs_at(s@, j, p@),
        decreases last + 1 - i,
    {
        if occurs_at_exec(s, i, p) {
            return true;
        }
        i += 1;
    }
    assert forall|j: int| !occurs_at(s@, j, p@) by {
        if 0 <= j < i {
        }
    }
    false
}

/// Whether `p` occurs in `s` (`str::contains`).
pub fn contains_str(s: &str, p: &str) -> (b: bool)
    ensures
        b == contains_seq(s@, p@),
{
    let sv = chars_of(s);
    let pv = chars_of(p);
    contains_chars(&sv, &pv)
}

/// Whether the two strings hold the same characters.
pub fn str_equal(a: &str, b: &str) -> (r: bool)
    ensures
        r == (a@ == b@),
{
    let a_owned = a.to_owned();
    let b_owned = b.to_owned();
    a_owned == b_owned
}

/// Position of the first `'\n'` in `s` at or after `i`, or the length of `s` if there is none.
pub open spec fn line_end(s: Seq<char>, i: int) -> int
    decreases s.len() - i,
{
    if i < 0 || i >= s.len() {
        s.len() as int
    } else if s[i] == '\n' {
        i
    } else {
        line_end(s, i + 1)
    }
}

pub proof fn lemma_line_end(s: Seq<char>, i: int)
    requires
        0 <= i <= s.len(),
    ensures
        i <= line_end(s, i) <= s.len(),
        line_end(s, i) < s.len() ==> s[line_end(s, i)] == '\n',
        forall|k: int| i <= k < line_end(s, i) ==> s[k] != '\n',
    decreases s.len() - i,
{
    if i < s.len() && s[i] != '\n' {
        lemma_line_end(s, i + 1);
    }
}

/// A line without its terminator: a `'\r'` right before the `'\n'` goes with it.
pub open spec fn strip_cr(line: Seq<char>, terminated: bool) -> Seq<char> {
    if terminated && line.len() > 0 && line.last() == '\r' {
        line.drop_last()
    } else {
        line
    }
}

/// The lines of `s` from position `i` on, as `str::lines` yields them: split at
/// `'\n'`, a `'\r'` before the `'\n'` dropped, no empty line after a final `'\n'`.
pub open spec fn lines_from(s: Seq<char>, i: int) -> Seq<Seq<char>>
    decreases s.len() - i,
{
    if i < 0 || i >= s.len() {
        seq![]
    } else {
        let e = line_end(s, i);
        proof {
            lemma_line_end(s, i);
        }
        seq![strip_cr(s.subrange(i, e), e < s.len())] + if e < s.len() {
            lines_from(s, e + 1)
        } else {
            seq![]
        }
    }
}

/// The lines of `s` (`str::lines`).
pub open spec fn lines_of(s: Seq<char>) -> Seq<Seq<char>> {
    lines_from(s, 0)
}

/// The first of `lines` in which `p` occurs.
pub open spec fn first_containing(lines: Seq<Seq<char>>, p: Seq<char>) -> Option<Seq<char>>
    decreases lines.len(),
{
    if lines.len() == 0 {
        None
    } else if contains_seq(lines[0], p) {
        Some(lines[0])
    } else {
        first_containing(lines.drop_first(), p)
    }
}

/// The characters of `s` from `start` up to (not including) `end`.
pub fn slice_chars(s: &Vec<char>, start: usize, end: usize) -> (r: Vec<char>)
    requires
        start <= end <= s.len(),
    ensures
        r@ == s@.subrange(start as int, end as int),
{
    let mut r: Vec<char> = Vec::new();
    let mut k: usize = start;
    while k < end
        invariant
            start <= k <= end,
            end <= s.len(),
            r@ == s@.subrange(start as int, k as int),
        decreases end - k,
    {
        r.push(s[k]);
        k += 1;
        assert(r@ =~= s@.subrange(start as int, k as int));
    }
    r
}

/// The first line of `text` (as `str::lines` splits it) in which `needle` occurs.
pub fn first_line_containing(text: &Vec<char>, needle: &Vec<char>) -> (r: Option<Vec<char>>)
    ensures
        r matches Some(line) ==> first_containing(lines_of(text@), needle@) == Some(line@),
        r is None ==> first_containing(lines_of(text@), needle@) is None,
{
    let n = text.len();
    let mut i: usize = 0;
    while i < n
        invariant
            n == text.len(),
            i <= n,
            first_containing(lines_from(text@, i as int), needle@) == first_containing(
                lines_of(text@),
                needle@,
            ),
        decreases n - i,
    {
        proof {
            lemma_line_end(text@, i as int);
        }
        let mut e: usize = i;
        while e < n && text[e] != '\n'
            invariant
                i <= e <= n,
                n == text.len(),
                line_end(text@, i as int) == line_end(text@, e as int),
            decreases n - e,
        {
            e += 1;
        }
        assert(e == line_end(text@, i as int));
        let mut stop = e;
        if e < n && e > i && text[e - 1] == '\r' {
            stop = e - 1;
        }
        let line = slice_chars(text, i, stop);
        let ghost whole = text@.subrange(i as int, e as int);
        assert(line@ == strip_cr(whole, e < n)) by {
            if e < n && e > i && text@[e - 1] == '\r' {
                assert(whole.drop_last() =~= line@);
            } else {
                assert(whole =~= line@);
            }
        }
        let ghost rest = if e < n {
            lines_from(text@, e + 1)
        } else {
            seq![]
        };
        assert(lines_from(text@, i as int) == seq![line@] + rest);
        assert((seq![line@] + rest)[0] == line@);
        assert((seq![line@] + rest).drop_first() =~= rest);
        if contains_chars(&line, needle) {
            return Some(line);
        }
        if e >= n {
            assert(rest =~= seq![]);
            assert(first_containing(rest, needle@) is None);
            assert(first_containing(lines_from(text@, i as int), needle@) == first_containing(
                rest,
                needle@,
            ));
            return None;
        }
        i = e + 1;
    }
    None
}

/// The `White_Space` characters of Unicode, which `char::is_whitespace` accepts.
pub open spec fn is_white_space(c: char) -> bool {
    let u = c as u32;
    (0x9 <= u <= 0xd) || u == 0x20 || u == 0x85 || u == 0xa0 || u == 0x1680 || (0x2000 <= u
        <= 0x200a) || u == 0x2028 || u == 0x2029 || u == 0x202f || u == 0x205f || u == 0x3000
}

/// Whether `c` is a `White_Space` character.
pub fn is_white_space_exec(c: char) -> (b: bool)
    ensures
        b == is_white_space(c),
{
    let u = c as u32;
    (0x9 <= u && u <= 0xd) || u == 0x20 || u == 0x85 || u == 0xa0 || u == 0x1680 || (0x2000 <= u
        && u <= 0x200a) || u == 0x2028 || u == 0x2029 || u == 0x202f || u == 0x205f || u == 0x3000
}

/// Position of the first character at or after `i` that is not white space, or the length.
pub open spec fn skip_space(s: Seq<char>, i: int) -> int
    decreases s.len() - i,
{
    if i < 0 || i >= s.len() {
        s.len() as int
    } else if !is_white_space(s[i]) {
        i
    } else {
        skip_space(s, i + 1)
    }
}

/// Position of the first white-space character at or after `i`, or the length.
pub open spec fn skip_word(s: Seq<char>, i: int) -> int
    decreases s.len() - i,
{
    if i < 0 || i >= s.len() {
        s.len() as int
    } else if is_white_space(s[i]) {
        i
    } else {
        skip_word(s, i + 1)
    }
}

pub proof fn lemma_skip_space(s: Seq<char>, i: int)
    requires
        0 <= i <= s.len(),
    ensures
        i <= skip_space(s, i) <= s.len(),
        skip_space(s, i) < s.len() ==> !is_white_space(s[skip_space(s, i)]),
        forall|k: int| i <= k < skip_space(s, i) ==> is_white_space(s[k]),
    decreases s.len() - i,
{
    if i < s.len() && is_white_space(s[i]) {
        lemma_skip_space(s, i + 1);
    }
}

pub proof fn lemma_skip_word(s: Seq<char>, i: int)
    requires
        0 <= i <= s.len(),
    ensures
        i <= skip_word(s, i) <= s.len(),
        skip_word(s, i) < s.len() ==> is_white_space(s[skip_word(s, i)]),
        forall|k: int| i <= k < skip_word(s, i) ==> !is_white_space(s[k]),
    decreases s.len() - i,
{
    if i < s.len() && !is_white_space(s[i]) {
        lemma_skip_word(s, i + 1);
    }
}

/// The white-space separated words of `s` from position `i` on (`str::split_whitespace`).
pub open spec fn words_from(s: Seq<char>, i: int) -> Seq<Seq<char>>
    decreases s.len() - i,
{
    if i < 0 || i > s.len() {
        seq![]
    } else {
        let b = skip_space(s, i);
        proof {
            lemma_skip_space(s, i);
        }
        if b >= s.len() {
            seq![]
        } else {
            let e = skip_word(s, b);
            proof {
                lemma_skip_word(s, b);
            }
            seq![s.subrange(b, e)] + words_from(s, e)
        }
    }
}

/// The white-space separated words of `s` (`str::split_whitespace`).
pub open spec fn words_of(s: Seq<char>) -> Seq<Seq<char>> {
    words_from(s, 0)
}

/// The word of index `n` of `s`, if `s` has that many words.
pub open spec fn nth_word(s: Seq<char>, n: nat) -> Option<Seq<char>> {
    if n < words_of(s).len() {
        Some(words_of(s)[n as int])
    } else {
        None
    }
}

/// The word of index `n` among the white-space separated words of `s`
/// (`s.split_whitespace().nth(n)`).
pub fn nth_word_exec(s: &Vec<char>, n: usize) -> (r: Option<Vec<char>>)
    ensures
        r matches Some(w) ==> nth_word(s@, n as nat) == Some(w@),
        r is None ==> nth_word(s@, n as nat) is None,
{
    let len = s.len();
    let mut i: usize = 0;
    let mut k: usize = 0;
    while i < len
        invariant
            len == s.len(),
            i <= len,
            k <= n,
            words_of(s@).len() == k + words_from(s@, i as int).len(),
            forall|j: int| 0 <= j < words_from(s@, i as int).len() ==> words_of(s@)[k + j] == #[trigger] words_from(s@, i as int)[j],
        decreases len - i,
    {
        proof {
            lemma_skip_space(s@, i as int);
        }
        let mut b = i;
        while b < len && is_white_space_exec(s[b])
            invariant
                i <= b <= len,
                len == s.len(),
                skip_space(s@, i as int) == skip_space(s@, b as int),
            decreases len - b,
        {
            b += 1;
        }
        if b >= len {
            assert(words_from(s@, i as int) =~= seq![]);
            return None;
        }
        proof {
            lemma_skip_word(s@, b as int);
        }
        let mut e = b;
        while e < len && !is_white_space_exec(s[e])
            invariant
                b <= e <= len,
                len == s.len(),
                skip_word(s@, b as int) == skip_word(s@, e as int),
            decreases len - e,
        {
            e += 1;
        }
        let word = slice_chars(s, b, e);
        let ghost rest = words_from(s@, e as int);
        assert(words_from(s@, i as int) == seq![word@] + rest);
        assert((seq![word@] + rest)[0] == word@);
        if k == n {
            return Some(word);
        }
        assert forall|j: int| 0 <= j < rest.len() implies words_of(s@)[(k + 1) + j] == #[trigger] rest[j] by {
            assert(words_from(s@, i as int)[j + 1] == rest[j]);
        }
        k += 1;
        i = e;
    }
    assert(words_from(s@, i as int) =~= seq![]);
    None
}

/// Position just past the last character of `s[..k]` that is not white space (or 0).
pub open spec fn trim_end_pos(s: Seq<char>, k: int) -> int
    decreases k,
{
    if k <= 0 || k > s.len() {
        0
    } else if !is_white_space(s[k - 1]) {
        k
    } else {
        trim_end_pos(s, k - 1)
    }
}

/// `s` without its leading and trailing white space (`str::trim`).
pub open spec fn trim(s: Seq<char>) -> Seq<char> {
    let b = skip_space(s, 0);
    if b >= s.len() {
        seq![]
    } else {
        s.subrange(b, trim_end_pos(s, s.len() as int))
    }
}

pub proof fn lemma_trim_end_pos(s: Seq<char>, k: int, b: int)
    requires
        0 <= b < k <= s.len(),
        !is_white_space(s[b]),
    ensures
        b < trim_end_pos(s, k) <= k,
    decreases k,
{
    if is_white_space(s[k - 1]) {
        lemma_trim_end_pos(s, k - 1, b);
    }
}

pub proof fn lemma_trim_end_pos_le(s: Seq<char>, k: int)
    requires
        0 <= k <= s.len(),
    ensures
        trim_end_pos(s, k) <= k,
    decreases k,
{
    if k > 0 && is_white_space(s[k - 1]) {
        lemma_trim_end_pos_le(s, k - 1);
    }
}

/// The characters of `s` without leading and trailing white space.
pub fn trim_chars(s: &Vec<char>) -> (r: Vec<char>)
    ensures
        r@ == trim(s@),
{
    let len = s.len();
    proof {
        lemma_skip_space(s@, 0);
    }
    let mut b: usize = 0;
    while b < len && is_white_space_exec(s[b])
        invariant
            b <= len,
            len == s.len(),
            skip_space(s@, 0) == skip_space(s@, b as int),
        decreases len - b,
    {
        b += 1;
    }
    if b >= len {
        return Vec::new();
    }
    proof {
        lemma_trim_end_pos(s@, len as int, b as int);
    }
    let mut e: usize = len;
    while e > b && is_white_space_exec(s[e - 1])
        invariant
            b < len,
            b <= e <= len,
            len == s.len(),
            !is_white_space(s@[b as int]),
            trim_end_pos(s@, len as int) == trim_end_pos(s@, e as int),
            b < trim_end_pos(s@, e as int) <= e,
        decreases e,
    {
        proof {
            lemma_trim_end_pos_le(s@, (e - 1) as int);
        }
        e -= 1;
    }
    slice_chars(s, b, e)
}

} // verus!

verus! {

/// Replacing a text that does not occur changes nothing.
pub proof fn lemma_replace_all_absent(s: Seq<char>, from: Seq<char>, to: Seq<char>)
    requires
        from.len() > 0,
        !contains_seq(s, from),
    ensures
        replace_all(s, from, to) == s,
    decreases s.len(),
{
    if s.len() >= from.len() {
        assert(!occurs_at(s, 0, from));
        let tail = s.subrange(1, s.len() as int);
        assert(!contains_seq(tail, from)) by {
            if contains_seq(tail, from) {
                let j = choose|j: int| occurs_at(tail, j, from);
                assert(tail.subrange(j, j + from.len()) =~= s.subrange(j + 1, j + 1 + from.len()));
                assert(occurs_at(s, j + 1, from));
            }
        }
        lemma_replace_all_absent(tail, from, to);
        assert(seq![s[0]] + tail =~= s);
    }
}

/// An occurrence at the start is replaced, and the rest is replaced on its own.
pub proof fn lemma_replace_all_leading(s: Seq<char>, from: Seq<char>, to: Seq<char>)
    requires
        from.len() > 0,
    ensures
        replace_all(from + s, from, to) == to + replace_all(s, from, to),
{
    let whole = from + s;
    assert(whole.subrange(0, from.len() as int) =~= from);
    assert(whole.subrange(from.len() as int, whole.len() as int) =~= s);
}

/// A text without the character `c` does not contain the one-character text `c`.
pub proof fn lemma_no_char_not_contained(s: Seq<char>, c: char)
    requires
        forall|i: int| 0 <= i < s.len() ==> s[i] != c,
    ensures
        !contains_seq(s, seq![c]),
{
    if contains_seq(s, seq![c]) {
        let j = choose|j: int| occurs_at(s, j, seq![c]);
        assert(s.subrange(j, j + 1)[0] == s[j]);
    }
}

} // verus!

verus! {

/// Replacing `p` by nothing in `a + p`, where `p` occurs only at the end, gives `a`.
pub proof fn lemma_replace_all_only_at_end(a: Seq<char>, p: Seq<char>)
    requires
        p.len() > 0,
        forall|i: int| occurs_at(a + p, i, p) ==> i == a.len(),
    ensures
        replace_all(a + p, p, seq![]) == a,
    decreases a.len(),
{
    let s = a + p;
    if a.len() == 0 {
        lemma_replace_all_leading(seq![], p, seq![]);
        assert(p + Seq::<char>::empty() =~= s);
        assert(Seq::<char>::empty() + replace_all(Seq::<char>::empty(), p, seq![]) =~= a);
    } else {
        assert(!occurs_at(s, 0, p));
        let t = a.subrange(1, a.len() as int);
        assert(s.subrange(1, s.len() as int) =~= t + p);
        assert forall|j: int| occurs_at(t + p, j, p) implies j == t.len() by {
            assert((t + p).subrange(j, j + p.len()) =~= s.subrange(j + 1, j + 1 + p.len()));
            assert(occurs_at(s, j + 1, p));
        }
        lemma_replace_all_only_at_end(t, p);
        assert(seq![a[0]] + t =~= a);
    }
}

/// Mapping a sequence that has one more element at its end gives the mapped
/// sequence with that element's image at its end.
pub proof fn lemma_map_values_push<A, B>(s: Seq<A>, x: A, f: spec_fn(A) -> B)
    ensures
        s.push(x).map_values(f) == s.map_values(f).push(f(x)),
{
    assert(s.push(x).map_values(f) =~= s.map_values(f).push(f(x)));
}

/// A filtered then mapped sequence holds the image of each element that passes
/// the filter, and nothing else.
pub proof fn lemma_filter_map_members<A, B>(s: Seq<A>, p: spec_fn(A) -> bool, f: spec_fn(A) -> B)
    ensures
        forall|k: int|
            0 <= k < s.len() && p(s[k]) ==> #[trigger] s.filter(p).map_values(f).contains(f(s[k])),
        forall|x: B|
            #[trigger] s.filter(p).map_values(f).contains(x) ==> exists|k: int|
                0 <= k < s.len() && p(s[k]) && f(s[k]) == x,
{
    broadcast use vstd::seq_lib::group_filter_ensures;

    let t = s.filter(p);
    assert forall|k: int| 0 <= k < s.len() && p(s[k]) implies #[trigger] t.map_values(f).contains(
        f(s[k]),
    ) by {
        assert(t.contains(s[k]));
        let i = choose|i: int| 0 <= i < t.len() && t[i] == s[k];
        assert(t.map_values(f)[i] == f(s[k]));
    }
    assert forall|x: B| #[trigger] t.map_values(f).contains(x) implies exists|k: int|
        0 <= k < s.len() && p(s[k]) && f(s[k]) == x by {
        let i = choose|i: int| 0 <= i < t.map_values(f).len() && t.map_values(f)[i] == x;
        assert(p(t[i]));
        assert(t.contains(t[i]));
        s.lemma_filter_contains_rev(p, t[i]);
        let k = choose|k: int| 0 <= k < s.len() && s[k] == t[i];
        assert(p(s[k]) && f(s[k]) == x);
    }
}

/// The texts of a sequence of strings.
pub open spec fn texts(v: Seq<String>) -> Seq<Seq<char>> {
    v.map_values(|x: String| x@)
}

} // verus!
