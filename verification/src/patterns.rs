//! The text patterns that the shim matches with regular expressions (through
//! the `regex` crate), and what it makes of the matches.
use vstd::prelude::*;
use vstd::utf8::is_ascii_chars;

use crate::decimal::{is_ascii_digit, parse_i32, parse_i32_chars};
use crate::dispatcher::{
    get_existing_image, last_index_before, lemma_wanted_files_none, names_contain, wanted_files, DirEntry,
};
use crate::text::{chars_of, contains_seq, lemma_map_values_push, line_end, occurs_at, replace_all, replace_str};

verus! {

/// Position of the first character at or after `i` that is not an ASCII digit, or the length.
pub open spec fn skip_digits(s: Seq<char>, i: int) -> int
    decreases s.len() - i,
{
    if i < 0 || i >= s.len() {
        s.len() as int
    } else if !is_ascii_digit(s[i]) {
        i
    } else {
        skip_digits(s, i + 1)
    }
}

/// Position of the first ASCII digit at or after `i`, or the length.
pub open spec fn skip_non_digits(s: Seq<char>, i: int) -> int
    decreases s.len() - i,
{
    if i < 0 || i >= s.len() {
        s.len() as int
    } else if is_ascii_digit(s[i]) {
        i
    } else {
        skip_non_digits(s, i + 1)
    }
}

/// `s` without its first run of characters that are not ASCII digits: what the
/// pattern `\D+` replaced by nothing gives on ASCII text.
pub open spec fn without_first_non_digit_run(s: Seq<char>) -> Seq<char> {
    let b = skip_digits(s, 0);
    let e = skip_non_digits(s, b);
    if b >= s.len() {
        s
    } else {
        s.subrange(0, b) + s.subrange(e, s.len() as int)
    }
}

/// What `Regex::new(r"\D+")` then `replace(text, "")` gives for `text`.
pub uninterp spec fn non_digit_run_removed(text: Seq<char>) -> Seq<char>;

/// Calls `regex::Regex::replace` with the pattern `\D+` and an empty
/// replacement: the leftmost run of characters that are not decimal digits is
/// removed. The regex crate's `\D` is Unicode-aware (`\P{Nd}`); the contract
/// states the result exactly for ASCII text, where `\D` is every character but
/// `'0'` to `'9'`, and names it otherwise.
#[verifier::external_body]
fn remove_first_non_digit_run(text: &str) -> (r: String)
    ensures
        r@ == non_digit_run_removed(text@),
        is_ascii_chars(text@) ==> r@ == without_first_non_digit_run(text@),
{
    regex::Regex::new(r"\D+").unwrap().replace(text, "").into_owned()
}

/// The number in a socket server's answer: the answer without its first run of
/// non-digit characters, read as an `i32`; `None` where that text is no `i32`.
pub fn reply_number(reply: &str) -> (r: Option<i32>)
    ensures
        r == parse_i32(non_digit_run_removed(reply@)),
        is_ascii_chars(reply@) ==> r == parse_i32(without_first_non_digit_run(reply@)),
{
    let stripped = remove_first_non_digit_run(reply);
    parse_i32_chars(&chars_of(stripped.as_str()))
}

/// Position of the first `c` in `s` at or after `i`, or the length.
pub open spec fn index_of_from(s: Seq<char>, c: char, i: int) -> int
    decreases s.len() - i,
{
    if i < 0 || i >= s.len() {
        s.len() as int
    } else if s[i] == c {
        i
    } else {
        index_of_from(s, c, i + 1)
    }
}

/// `s` cut at its first `'Z'` up to the end of that line: what the pattern
/// `Z(.*)` replaced by nothing gives (`.` does not match `'\n'`).
pub open spec fn cut_at_first_z(s: Seq<char>) -> Seq<char> {
    let z = index_of_from(s, 'Z', 0);
    if z >= s.len() {
        s
    } else {
        s.subrange(0, z) + s.subrange(line_end(s, z), s.len() as int)
    }
}

/// Calls `regex::Regex::replace` with the pattern `Z(.*)` and an empty
/// replacement: the text from the first `'Z'` to the end of its line is removed.
#[verifier::external_body]
fn remove_from_first_z(text: &str) -> (r: String)
    ensures
        r@ == cut_at_first_z(text@),
{
    regex::Regex::new(r"Z(.*)").unwrap().replace(text, "").into_owned()
}

/// The timestamp text in the answer of a timed function: the answer without
/// `"Received from client at "`, cut at its first `'Z'`, then `'Z'` put back.
pub open spec fn reply_timestamp(reply: Seq<char>) -> Seq<char> {
    cut_at_first_z(replace_all(reply, "Received from client at "@, seq![])) + seq!['Z']
}

/// The RFC 3339 timestamp that the answer of a timed function holds.
pub fn reply_timestamp_of(reply: &str) -> (t: String)
    ensures
        t@ == reply_timestamp(reply@),
{
    proof {
        reveal_strlit("Received from client at ");
        reveal_strlit("");
        reveal_strlit("Z");
    }
    assert(""@ =~= seq![]);
    let without_prefix = replace_str(reply, "Received from client at ", "");
    let mut t = remove_from_first_z(without_prefix.as_str());
    t.append("Z");
    t
}

/// The name of the directory that holds the last component of `path`: what
/// the pattern `([^/]+)/[^/]+$` captures as its first group.
pub open spec fn parent_dir_name(path: Seq<char>) -> Option<Seq<char>> {
    let last = last_index_before(path, '/', path.len() as int);
    let prev = last_index_before(path, '/', last);
    if last < 0 || last + 1 >= path.len() || prev + 1 >= last {
        None
    } else {
        Some(path.subrange(prev + 1, last))
    }
}

/// Calls `regex::Regex::captures` with the pattern `([^/]+)/[^/]+$` and takes
/// its first group: the name of the directory that holds the path's last
/// component, when both are non-empty.
#[verifier::external_body]
fn capture_parent_dir_name(path: &str) -> (r: Option<String>)
    ensures
        r matches Some(n) ==> parent_dir_name(path@) == Some(n@),
        r is None ==> parent_dir_name(path@) is None,
{
    match regex::Regex::new(r"([^/]+)/[^/]+$").unwrap().captures(path) {
        Some(caps) => caps.get(1).map(|m| m.as_str().to_string()),
        None => None,
    }
}

/// The name of a container, taken from the path of its root file system: the
/// name of the directory that holds it; `None` where the path has no such part.
pub fn container_name(root_path: &str) -> (name: Option<String>)
    ensures
        name matches Some(n) ==> parent_dir_name(root_path@) == Some(n@),
        name is None ==> parent_dir_name(root_path@) is None,
{
    capture_parent_dir_name(root_path)
}

/// What `Regex::new(r"\bimport\s+\S+")` then `find_iter(wat)` gives for the
/// module text `wat`: the matched texts, in order.
pub uninterp spec fn import_matches(wat: Seq<char>) -> Seq<Seq<char>>;

/// Calls `regex::Regex::find_iter` with the pattern `\bimport\s+\S+` on the
/// text form of a module and collects the matched texts in order. Each match
/// is a piece of the text and begins with `import` (the pattern's literal
/// start); which pieces match is not stated here.
#[verifier::external_body]
fn find_imports(wat: &str) -> (r: Vec<String>)
    ensures
        r@.map_values(|m: String| m@) == import_matches(wat@),
        forall|i: int|
            0 <= i < r@.len() ==> "import"@.is_prefix_of(#[trigger] r@[i]@) && contains_seq(
                wat@,
                r@[i]@,
            ),
{
    regex::Regex::new(r"\bimport\s+\S+").unwrap().find_iter(wat).map(|m| m.as_str().to_string()).collect()
}

/// `s` without its later repetitions: each element kept at its first occurrence.
pub open spec fn first_occurrences(s: Seq<Seq<char>>) -> Seq<Seq<char>>
    decreases s.len(),
{
    if s.len() == 0 {
        seq![]
    } else {
        let rest = first_occurrences(s.drop_last());
        if s.drop_last().contains(s.last()) {
            rest
        } else {
            rest.push(s.last())
        }
    }
}

/// The module file that an import names: the import text without `"import "`
/// and without quotes, followed by `".wasm"`.
pub open spec fn import_module_file(import: Seq<char>) -> Seq<char> {
    replace_all(replace_all(import, "import "@, seq![]), "\""@, seq![]) + ".wasm"@
}

/// The module files that the imports name, each once, in order of first occurrence.
pub open spec fn import_module_files(imports: Seq<Seq<char>>) -> Seq<Seq<char>> {
    first_occurrences(imports).map_values(|i: Seq<char>| import_module_file(i))
}

/// The module files named by the import texts `imports`: each import once,
/// without `"import "` and quotes, with `".wasm"` appended.
pub fn module_files_of_imports(imports: &Vec<String>) -> (files: Vec<String>)
    ensures
        files@.map_values(|f: String| f@) == import_module_files(
            imports@.map_values(|m: String| m@),
        ),
{
    let ghost all = imports@.map_values(|m: String| m@);
    let mut seen: Vec<String> = Vec::new();
    let mut i: usize = 0;
    while i < imports.len()
        invariant
            i <= imports.len(),
            all == imports@.map_values(|m: String| m@),
            seen@.map_values(|m: String| m@) == first_occurrences(all.take(i as int)),
        decreases imports.len() - i,
    {
        let ghost prefix = all.take(i as int);
        let ghost next = all.take(i + 1);
        assert(next.drop_last() =~= prefix);
        assert(next.last() == imports@[i as int]@);
        proof {
            lemma_first_occurrences_contains(prefix);
        }
        let x = imports[i].as_str();
        if !names_contain(&seen, x) {
            seen.push(imports[i].clone());
        }
        assert(seen@.map_values(|m: String| m@) =~= first_occurrences(next));
        i += 1;
    }
    assert(all.take(imports.len() as int) =~= all);
    proof {
        reveal_strlit("import ");
        reveal_strlit("\"");
        reveal_strlit("");
    }
    assert(""@ =~= seq![]);
    let mut files: Vec<String> = Vec::new();
    let mut k: usize = 0;
    while k < seen.len()
        invariant
            k <= seen.len(),
            "import "@.len() > 0,
            "\""@.len() > 0,
            ""@ == Seq::<char>::empty(),
            files@.map_values(|f: String| f@) == seen@.map_values(|m: String| m@).take(
                k as int,
            ).map_values(|i: Seq<char>| import_module_file(i)),
        decreases seen.len() - k,
    {
        let a = replace_str(seen[k].as_str(), "import ", "");
        let mut b = replace_str(a.as_str(), "\"", "");
        b.append(".wasm");
        assert(b@ == import_module_file(seen@[k as int]@));
        let ghost before = files@;
        files.push(b);
        proof {
            let seen_texts = seen@.map_values(|m: String| m@);
            lemma_map_values_push(before, b, |f: String| f@);
            lemma_map_values_push(
                seen_texts.take(k as int),
                seen_texts[k as int],
                |i: Seq<char>| import_module_file(i),
            );
            assert(seen_texts.take(k + 1) =~= seen_texts.take(k as int).push(seen_texts[k as int]));
        }
        k += 1;
    }
    assert(seen@.map_values(|m: String| m@).take(seen.len() as int) =~= seen@.map_values(
        |m: String| m@,
    ));
    files
}

/// An element of the first occurrences of `s` is an element of `s`, and back.
pub proof fn lemma_first_occurrences_contains(s: Seq<Seq<char>>)
    ensures
        forall|x: Seq<char>| first_occurrences(s).contains(x) <==> s.contains(x),
    decreases s.len(),
{
    if s.len() > 0 {
        let dl = s.drop_last();
        let y = s.last();
        lemma_first_occurrences_contains(dl);
        let rest = first_occurrences(dl);
        assert forall|x: Seq<char>| s.contains(x) <==> (dl.contains(x) || x == y) by {
            if s.contains(x) {
                let k = choose|k: int| 0 <= k < s.len() && s[k] == x;
                if k < s.len() - 1 {
                    assert(dl[k] == x);
                }
            }
            if dl.contains(x) {
                let k = choose|k: int| 0 <= k < dl.len() && dl[k] == x;
                assert(s[k] == x);
            }
            if x == y {
                assert(s[s.len() - 1] == x);
            }
        }
        assert forall|x: Seq<char>| rest.push(y).contains(x) <==> (rest.contains(x) || x == y) by {
            if rest.push(y).contains(x) {
                let k = choose|k: int| 0 <= k < rest.push(y).len() && rest.push(y)[k] == x;
                if k < rest.len() {
                    assert(rest[k] == x);
                }
            }
            if rest.contains(x) {
                let k = choose|k: int| 0 <= k < rest.len() && rest[k] == x;
                assert(rest.push(y)[k] == x);
            }
            if x == y {
                assert(rest.push(y)[rest.len() as int] == x);
            }
        }
    }
}

/// The module files that the text form `wat` of a module imports, each once.
pub fn import_modules_of(wat: &str) -> (files: Vec<String>)
    ensures
        files@.map_values(|f: String| f@) == import_module_files(import_matches(wat@)),
        wat@.len() == 0 ==> files@.len() == 0,
{
    let imports = find_imports(wat);
    proof {
        reveal_strlit("import");
        if wat@.len() == 0 && imports@.len() > 0 {
            let m = imports@[0]@;
            assert("import"@.is_prefix_of(m) && contains_seq(wat@, m));
            let j = choose|j: int| occurs_at(wat@, j, m);
            assert(occurs_at(wat@, j, m));
        }
        if imports@.len() == 0 {
            assert(imports@.map_values(|m: String| m@) =~= Seq::<Seq<char>>::empty());
            assert(first_occurrences(Seq::<Seq<char>>::empty()) =~= Seq::<Seq<char>>::empty());
        }
    }
    let files = module_files_of_imports(&imports);
    assert(files@.len() == files@.map_values(|f: String| f@).len());
    files
}

/// What `wasmprinter::print_bytes` gives for the module bytes `wasm`: its
/// text form, or `None` where the bytes are no module it can print.
pub uninterp spec fn wasm_text(wasm: Seq<u8>) -> Option<Seq<char>>;

/// Calls `wasmprinter::print_bytes`: the text form of a WebAssembly module.
#[verifier::external_body]
fn print_wasm(wasm: &[u8]) -> (r: Option<String>)
    ensures
        r matches Some(t) ==> wasm_text(wasm@) == Some(t@),
        r is None ==> wasm_text(wasm@) is None,
{
    wasmprinter::print_bytes(wasm).ok()
}

/// The text form of a module, empty where it cannot be printed.
pub open spec fn module_text(wasm: Seq<u8>) -> Seq<char> {
    match wasm_text(wasm) {
        Some(t) => t,
        None => seq![],
    }
}

/// The text form of the module `wasm`, or the empty string where it is no
/// module that can be printed.
pub fn module_text_of(wasm: &Vec<u8>) -> (t: String)
    ensures
        t@ == module_text(wasm@),
{
    match print_wasm(wasm.as_slice()) {
        Some(t) => t,
        None => String::new(),
    }
}

/// The paths of the modules that the module `wasm` imports: among the walked
/// `entries`, the files named after a module that its text form imports.
pub fn extract_modules_from_wat(wasm: &Vec<u8>, entries: &Vec<DirEntry>) -> (paths: Vec<String>)
    ensures
        paths@.map_values(|p: String| p@) == wanted_files(
            entries@,
            import_module_files(import_matches(module_text(wasm@))),
        ),
        wasm_text(wasm@) is None ==> paths@.len() == 0,
{
    let wat = module_text_of(wasm);
    let files = import_modules_of(wat.as_str());
    proof {
        if files@.len() == 0 {
            assert(files@.map_values(|f: String| f@) =~= Seq::<Seq<char>>::empty());
            lemma_wanted_files_none(entries@);
        }
    }
    let paths = get_existing_image(entries, &files);
    assert(paths@.len() == paths@.map_values(|p: String| p@).len());
    paths
}

/// `index_of_from(s, c, i)` is `j` when `s[j]` is the first `c` from `i` on.
pub proof fn lemma_index_of_from(s: Seq<char>, c: char, i: int, j: int)
    requires
        0 <= i <= j < s.len(),
        s[j] == c,
        forall|k: int| i <= k < j ==> s[k] != c,
    ensures
        index_of_from(s, c, i) == j,
    decreases j - i,
{
    if i < j {
        lemma_index_of_from(s, c, i + 1, j);
    }
}

/// A timestamp survives its trip through a timed function's answer: for a
/// text that ends in its only `'Z'`, sits on one line and does not hold
/// `"Received from client at "`, the timestamp read from the answer is the text itself.
pub proof fn law_reply_timestamp_keeps_time(body: Seq<char>)
    requires
        forall|i: int| 0 <= i < body.len() ==> body[i] != 'Z' && body[i] != '\n',
        !contains_seq(body + seq!['Z'], "Received from client at "@),
    ensures
        reply_timestamp(body + seq!['Z']) == body + seq!['Z'],
{
    reveal_strlit("Received from client at ");
    let t = body + seq!['Z'];
    crate::text::lemma_replace_all_absent(t, "Received from client at "@, seq![]);
    lemma_index_of_from(t, 'Z', 0, body.len() as int);
    assert(line_end(t, body.len() as int) == t.len()) by {
        assert(t[body.len() as int] == 'Z');
        assert(line_end(t, (body.len() + 1) as int) == t.len());
    }
    assert(t.subrange(0, body.len() as int) + t.subrange(t.len() as int, t.len() as int) =~= body);
}

} // verus!
