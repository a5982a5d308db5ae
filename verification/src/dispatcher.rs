//! How a call of another function is dispatched: to a co-located function
//! through its Unix socket, or to a remote one through the message broker.
use vstd::prelude::*;

use crate::message::Message;
use crate::oci_utils::function_name_of;
use crate::text::{
    chars_of, lemma_filter_map_members, lemma_map_values_push, replace_all, replace_str, str_equal,
    string_of, texts,
};

verus! {

/// Position of the last `c` in `s[..end]`, or -1 when there is none.
pub open spec fn last_index_before(s: Seq<char>, c: char, end: int) -> int
    decreases end,
{
    if end <= 0 || end > s.len() {
        -1
    } else if s[end - 1] == c {
        end - 1
    } else {
        last_index_before(s, c, end - 1)
    }
}

pub proof fn lemma_last_index_before(s: Seq<char>, c: char, end: int)
    requires
        0 <= end <= s.len(),
    ensures
        -1 <= last_index_before(s, c, end) < end,
        last_index_before(s, c, end) >= 0 ==> s[last_index_before(s, c, end)] == c,
        forall|k: int| last_index_before(s, c, end) < k < end ==> s[k] != c,
    decreases end,
{
    if end > 0 && s[end - 1] != c {
        lemma_last_index_before(s, c, end - 1);
    }
}

/// The directory that holds the bundles of all containers: the bundle path cut
/// before its last two `'/'`-separated parts, with a `'/'` after it
/// (`path.rsplitn(3, '/').nth(2)` followed by `"/"`); none if the path has
/// fewer than two `'/'`.
pub open spec fn bundles_dir(bundle_path: Seq<char>) -> Option<Seq<char>> {
    let last = last_index_before(bundle_path, '/', bundle_path.len() as int);
    let second = if last < 0 {
        -1
    } else {
        last_index_before(bundle_path, '/', last)
    };
    if second < 0 {
        None
    } else {
        Some(bundle_path.subrange(0, second) + seq!['/'])
    }
}

/// Position of the last `c` in `s[..end]`, or `None` when there is none.
fn last_index_before_exec(s: &Vec<char>, c: char, end: usize) -> (r: Option<usize>)
    requires
        end <= s.len(),
    ensures
        r matches Some(k) ==> k as int == last_index_before(s@, c, end as int),
        r is None ==> last_index_before(s@, c, end as int) == -1,
{
    let mut k: usize = end;
    while k > 0
        invariant
            k <= end <= s.len(),
            last_index_before(s@, c, end as int) == last_index_before(s@, c, k as int),
        decreases k,
    {
        if s[k - 1] == c {
            return Some(k - 1);
        }
        k -= 1;
    }
    None
}

/// The directory holding all container bundles, derived from this container's
/// bundle path; `None` where the path has fewer than two `'/'`.
pub fn bundles_dir_of(bundle_path: &str) -> (r: Option<String>)
    ensures
        r matches Some(d) ==> bundles_dir(bundle_path@) == Some(d@),
        r is None ==> bundles_dir(bundle_path@) is None,
{
    let s = chars_of(bundle_path);
    proof {
        lemma_last_index_before(s@, '/', s.len() as int);
    }
    match last_index_before_exec(&s, '/', s.len()) {
        None => None,
        Some(last) => match last_index_before_exec(&s, '/', last) {
            None => None,
            Some(second) => {
                proof {
                    lemma_last_index_before(s@, '/', last as int);
                }
                let mut prefix: Vec<char> = Vec::new();
                let mut k: usize = 0;
                while k < second
                    invariant
                        k <= second,
                        second < s.len(),
                        prefix@ == s@.subrange(0, k as int),
                    decreases second - k,
                {
                    prefix.push(s[k]);
                    k += 1;
                    assert(prefix@ =~= s@.subrange(0, k as int));
                }
                prefix.push('/');
                Some(string_of(&prefix))
            },
        },
    }
}

/// Where a call goes.
pub enum Route {
    /// To a function on this host, through the socket at `socket_path` (without `.sock`).
    Local { socket_path: String },
    /// To a remote function, through the broker channel `channel`.
    Remote { channel: String },
}

/// The broker channel of a target function: its name without `".wasm"`.
pub open spec fn remote_channel(target_channel: Seq<char>) -> Seq<char> {
    replace_all(target_channel, ".wasm"@, seq![])
}

/// Where a call of `target_channel` goes: through the container's socket when one
/// was found (`socket_path` is not empty), else through the broker.
pub fn route(target_channel: &str, socket_path: String) -> (r: Route)
    ensures
        socket_path@.len() > 0 ==> r == (Route::Local { socket_path }),
        socket_path@.len() == 0 ==> (r matches Route::Remote { channel } && channel@
            == remote_channel(target_channel@)),
{
    if socket_path.as_str().is_empty() {
        proof {
            reveal_strlit(".wasm");
            reveal_strlit("");
        }
        assert(""@ =~= seq![]);
        Route::Remote { channel: replace_str(target_channel, ".wasm", "") }
    } else {
        Route::Local { socket_path }
    }
}

/// The request that a call through the broker publishes: from a fresh channel
/// `reply_channel` (on which the answer comes back) to `channel`.
pub fn queue_request(reply_channel: String, channel: String, input: String) -> (m: Message)
    ensures
        m.source_channel == reply_channel,
        m.target_channel == channel,
        m.payload == input,
{
    Message::new(reply_channel, channel, input)
}

/// The directory of a container, given the path of its `config.json`.
pub open spec fn container_dir(config_path: Seq<char>) -> Seq<char> {
    replace_all(config_path, "/config.json"@, seq![])
}

/// The directory of the container whose runtime specification is at `config_path`.
pub fn container_dir_of(config_path: &str) -> (dir: String)
    ensures
        dir@ == container_dir(config_path@),
{
    proof {
        reveal_strlit("/config.json");
        reveal_strlit("");
    }
    assert(""@ =~= seq![]);
    replace_str(config_path, "/config.json", "")
}

/// The path of a container's socket: its directory followed by `".sock"`.
pub open spec fn socket_file(dir: Seq<char>) -> Seq<char> {
    dir + ".sock"@
}

/// The path of the socket of the container in `dir`.
pub fn socket_file_of(dir: &str) -> (path: String)
    ensures
        path@ == socket_file(dir@),
{
    let mut path = dir.to_owned();
    path.append(".sock");
    path
}

/// An entry found while walking a directory tree.
pub struct DirEntry {
    pub path: String,
    pub file_name: String,
    pub is_file: bool,
}

/// The entry is a container's runtime specification.
pub open spec fn is_config_entry(e: DirEntry) -> bool {
    e.is_file && e.file_name@ == "config.json"@
}

/// Whether the entry is a file named `config.json`.
pub fn is_config_entry_exec(e: &DirEntry) -> (b: bool)
    ensures
        b == is_config_entry(*e),
{
    e.is_file && str_equal(e.file_name.as_str(), "config.json")
}

/// A container that may run the function looked for: its directory, the first
/// argument of its process (`None` when it has none or its specification could
/// not be read), and whether its socket exists.
pub struct Candidate {
    pub dir: String,
    pub module_arg: Option<String>,
    pub socket_exists: bool,
}

/// The container runs `function_name` and listens on its socket.
pub open spec fn serves(c: Candidate, function_name: Seq<char>) -> bool {
    &&& c.module_arg is Some
    &&& function_name_of(c.module_arg.unwrap()@) == function_name
    &&& c.socket_exists
}

/// Whether the container runs `function_name` and listens on its socket.
pub fn serves_exec(c: &Candidate, function_name: &str) -> (b: bool)
    ensures
        b == serves(*c, function_name@),
{
    match &c.module_arg {
        None => false,
        Some(arg) => {
            let name = crate::oci_utils::function_name(arg.as_str());
            str_equal(name.as_str(), function_name) && c.socket_exists
        },
    }
}

/// The directory of the first of `cands` that serves `function_name`, or the
/// empty text when none does.
pub open spec fn first_serving(cands: Seq<Candidate>, function_name: Seq<char>) -> Seq<char>
    decreases cands.len(),
{
    if cands.len() == 0 {
        seq![]
    } else if serves(cands[0], function_name) {
        cands[0].dir@
    } else {
        first_serving(cands.drop_first(), function_name)
    }
}

/// Every candidate is examined: when one of `cands` serves `function_name`,
/// the result is the directory of the first that does, wherever it stands,
/// and so of a serving candidate; when none does, the result is empty.
pub proof fn law_first_serving_is_first_server(cands: Seq<Candidate>, function_name: Seq<char>)
    ensures
        forall|j: int|
            0 <= j < cands.len() && serves(#[trigger] cands[j], function_name) && (forall|k: int|
                0 <= k < j ==> !serves(cands[k], function_name)) ==> first_serving(
                cands,
                function_name,
            ) == cands[j].dir@,
        (exists|i: int| 0 <= i < cands.len() && serves(#[trigger] cands[i], function_name))
            ==> exists|j: int|
            0 <= j < cands.len() && serves(#[trigger] cands[j], function_name) && first_serving(
                cands,
                function_name,
            ) == cands[j].dir@,
        (forall|i: int| 0 <= i < cands.len() ==> !serves(#[trigger] cands[i], function_name))
            ==> first_serving(cands, function_name).len() == 0,
    decreases cands.len(),
{
    if cands.len() > 0 {
        let rest = cands.drop_first();
        law_first_serving_is_first_server(rest, function_name);
        assert forall|j: int|
            0 <= j < cands.len() && serves(#[trigger] cands[j], function_name) && (forall|k: int|
                0 <= k < j ==> !serves(cands[k], function_name)) implies first_serving(
            cands,
            function_name,
        ) == cands[j].dir@ by {
            if j > 0 {
                assert(!serves(cands[0], function_name));
                assert(rest[j - 1] == cands[j]);
                assert forall|k: int| 0 <= k < j - 1 implies !serves(rest[k], function_name) by {
                    assert(rest[k] == cands[k + 1]);
                }
            }
        }
        if exists|i: int| 0 <= i < cands.len() && serves(#[trigger] cands[i], function_name) {
            if !serves(cands[0], function_name) {
                let i = choose|i: int| 0 <= i < cands.len() && serves(#[trigger] cands[i], function_name);
                assert(rest[i - 1] == cands[i]);
                let j = choose|j: int|
                    0 <= j < rest.len() && serves(#[trigger] rest[j], function_name) && first_serving(
                        rest,
                        function_name,
                    ) == rest[j].dir@;
                assert(rest[j] == cands[j + 1]);
            }
        }
        if forall|i: int| 0 <= i < cands.len() ==> !serves(#[trigger] cands[i], function_name) {
            assert(!serves(cands[0], function_name));
            assert forall|i: int| 0 <= i < rest.len() implies !serves(#[trigger] rest[i], function_name) by {
                assert(rest[i] == cands[i + 1]);
            }
        }
    }
}

/// The directory of the container that serves `function_name` among the
/// candidates found: the first one that does (any that does is an outcome of
/// the parallel search), or the empty string when none does. Every candidate
/// is examined.
pub fn find_container_path_parallel(cands: &Vec<Candidate>, function_name: &str) -> (dir: String)
    ensures
        dir@ == first_serving(cands@, function_name@),
        dir@.len() > 0 ==> exists|i: int| 0 <= i < cands@.len() && serves(cands@[i], function_name@) && cands@[i].dir@ == dir@,
        forall|j: int|
            0 <= j < cands@.len() && serves(#[trigger] cands@[j], function_name@) && (forall|k: int|
                0 <= k < j ==> !serves(cands@[k], function_name@)) ==> dir@ == cands@[j].dir@,
        (exists|i: int| 0 <= i < cands@.len() && serves(#[trigger] cands@[i], function_name@))
            ==> exists|j: int|
            0 <= j < cands@.len() && serves(#[trigger] cands@[j], function_name@) && dir@
                == cands@[j].dir@,
        (forall|i: int| 0 <= i < cands@.len() ==> !serves(#[trigger] cands@[i], function_name@))
            ==> dir@.len() == 0,
{
    proof {
        law_first_serving_is_first_server(cands@, function_name@);
    }
    let mut i: usize = 0;
    assert(cands@.subrange(0, cands.len() as int) =~= cands@);
    while i < cands.len()
        invariant
            i <= cands.len(),
            first_serving(cands@, function_name@) == first_serving(
                cands@.subrange(i as int, cands.len() as int),
                function_name@,
            ),
            forall|j: int| 0 <= j < i ==> !serves(#[trigger] cands@[j], function_name@),
        decreases cands.len() - i,
    {
        let ghost rest = cands@.subrange(i as int, cands.len() as int);
        assert(rest[0] == cands@[i as int]);
        assert(rest.drop_first() =~= cands@.subrange(i + 1, cands.len() as int));
        if serves_exec(&cands[i], function_name) {
            let dir = cands[i].dir.clone();
            proof {
                if dir@.len() > 0 {
                    assert(serves(cands@[i as int], function_name@));
                }
            }
            return dir;
        }
        i += 1;
    }
    assert(cands@.subrange(i as int, cands.len() as int) =~= seq![]);
    String::new()
}

/// The paths of the entries that are files named as one of `names`, in order.
pub open spec fn wanted_files(entries: Seq<DirEntry>, names: Seq<Seq<char>>) -> Seq<Seq<char>>
    decreases entries.len(),
{
    if entries.len() == 0 {
        seq![]
    } else {
        let rest = wanted_files(entries.drop_last(), names);
        let e = entries.last();
        if e.is_file && names.contains(e.file_name@) {
            rest.push(e.path@)
        } else {
            rest
        }
    }
}

/// The entry is a file named as one of `names`.
pub open spec fn wanted_entry(e: DirEntry, names: Seq<Seq<char>>) -> bool {
    e.is_file && names.contains(e.file_name@)
}

/// The path of an entry, as text.
pub open spec fn entry_path(e: DirEntry) -> Seq<char> {
    e.path@
}

/// Every walked entry is examined: the wanted paths are those of the entries
/// that are files named as one of `names`, all of them, in the order of the
/// walk; each such entry gives its path, and every path comes from one.
pub proof fn law_wanted_files_are_the_named_files(entries: Seq<DirEntry>, names: Seq<Seq<char>>)
    ensures
        wanted_files(entries, names) == entries.filter(|e: DirEntry| wanted_entry(e, names)).map_values(
            |e: DirEntry| entry_path(e),
        ),
        forall|k: int|
            0 <= k < entries.len() && wanted_entry(entries[k], names) ==> #[trigger] wanted_files(
                entries,
                names,
            ).contains(entry_path(entries[k])),
        forall|x: Seq<char>|
            #[trigger] wanted_files(entries, names).contains(x) ==> exists|k: int|
                0 <= k < entries.len() && wanted_entry(entries[k], names) && entry_path(entries[k])
                    == x,
    decreases entries.len(),
{
    let p = |e: DirEntry| wanted_entry(e, names);
    let f = |e: DirEntry| entry_path(e);
    if entries.len() > 0 {
        let dl = entries.drop_last();
        law_wanted_files_are_the_named_files(dl, names);
        assert(dl.push(entries.last()) =~= entries);
        dl.lemma_filter_push(entries.last(), p);
        if p(entries.last()) {
            lemma_map_values_push(dl.filter(p), entries.last(), f);
        }
    } else {
        assert(entries.filter(p) =~= entries) by {
            reveal(Seq::filter);
        }
    }
    lemma_filter_map_members(entries, p, f);
    assert forall|k: int| 0 <= k < entries.len() && wanted_entry(entries[k], names) implies #[trigger] wanted_files(
        entries,
        names,
    ).contains(entry_path(entries[k])) by {
        assert(p(entries[k]));
        assert(entries.filter(p).map_values(f).contains(f(entries[k])));
    }
    assert forall|x: Seq<char>| #[trigger] wanted_files(entries, names).contains(x) implies exists|k: int|
        0 <= k < entries.len() && wanted_entry(entries[k], names) && entry_path(entries[k]) == x by {
        assert(entries.filter(p).map_values(f).contains(x));
        let k = choose|k: int| 0 <= k < entries.len() && p(entries[k]) && f(entries[k]) == x;
        assert(wanted_entry(entries[k], names) && entry_path(entries[k]) == x);
    }
}

/// No entry is wanted when no name is.
pub proof fn lemma_wanted_files_none(entries: Seq<DirEntry>)
    ensures
        wanted_files(entries, Seq::<Seq<char>>::empty()) == Seq::<Seq<char>>::empty(),
    decreases entries.len(),
{
    if entries.len() > 0 {
        lemma_wanted_files_none(entries.drop_last());
    }
}

/// Whether one of `names` is `name`.
pub fn names_contain(names: &Vec<String>, name: &str) -> (b: bool)
    ensures
        b == names@.map_values(|n: String| n@).contains(name@),
{
    let mut i: usize = 0;
    while i < names.len()
        invariant
            i <= names.len(),
            forall|k: int| 0 <= k < i ==> names@[k]@ != name@,
        decreases names.len() - i,
    {
        if str_equal(names[i].as_str(), name) {
            assert(names@.map_values(|n: String| n@)[i as int] == name@);
            return true;
        }
        i += 1;
    }
    proof {
        let v = names@.map_values(|n: String| n@);
        if v.contains(name@) {
            let k = choose|k: int| 0 <= k < v.len() && v[k] == name@;
            assert(names@[k]@ == name@);
        }
    }
    false
}

/// The paths of the image files among the walked `entries`: the files whose
/// name is one of `image_names`, all of them, in the order of the walk.
pub fn get_existing_image(entries: &Vec<DirEntry>, image_names: &Vec<String>) -> (paths: Vec<String>)
    ensures
        paths@.map_values(|p: String| p@) == wanted_files(
            entries@,
            image_names@.map_values(|n: String| n@),
        ),
        texts(paths@) == entries@.filter(|e: DirEntry| wanted_entry(e, texts(image_names@))).map_values(
            |e: DirEntry| entry_path(e),
        ),
        forall|k: int|
            0 <= k < entries@.len() && wanted_entry(entries@[k], texts(image_names@))
                ==> #[trigger] texts(paths@).contains(entry_path(entries@[k])),
        forall|x: Seq<char>|
            #[trigger] texts(paths@).contains(x) ==> exists|k: int|
                0 <= k < entries@.len() && wanted_entry(entries@[k], texts(image_names@))
                    && entry_path(entries@[k]) == x,
{
    proof {
        law_wanted_files_are_the_named_files(entries@, texts(image_names@));
    }
    let mut paths: Vec<String> = Vec::new();
    let mut i: usize = 0;
    while i < entries.len()
        invariant
            i <= entries.len(),
            paths@.map_values(|p: String| p@) == wanted_files(
                entries@.take(i as int),
                image_names@.map_values(|n: String| n@),
            ),
        decreases entries.len() - i,
    {
        let e = &entries[i];
        assert(entries@.take(i + 1).drop_last() =~= entries@.take(i as int));
        assert(entries@.take(i + 1).last() == *e);
        if e.is_file && names_contain(image_names, e.file_name.as_str()) {
            paths.push(e.path.clone());
        }
        assert(paths@.map_values(|p: String| p@) =~= wanted_files(
            entries@.take(i + 1),
            image_names@.map_values(|n: String| n@),
        ));
        i += 1;
    }
    assert(entries@.take(entries.len() as int) =~= entries@);
    paths
}

/// How many times connecting to a co-located function's socket is tried.
pub open spec fn max_connect_attempts() -> int {
    1000
}

/// After the failed attempt number `retries + 1`: the count of failed
/// attempts, or `None` when the connection is to be given up.
pub fn after_failed_attempt(retries: u32) -> (r: Option<u32>)
    ensures
        retries + 1 >= max_connect_attempts() ==> r is None,
        retries + 1 < max_connect_attempts() ==> r == Some((retries + 1) as u32),
{
    if retries >= 999 {
        None
    } else {
        Some(retries + 1)
    }
}

} // verus!

verus! {

/// A call sent through the broker reaches the function it names: the channel
/// that the caller publishes to for a target named after a module path (as
/// the path's `'/'`-free name) is the channel on which that module's
/// listener subscribes.
pub proof fn law_remote_channel_matches_listener(module_arg: Seq<char>)
    ensures
        remote_channel(function_name_of(module_arg)) == crate::oci_utils::channel_of(module_arg),
{
}

} // verus!

verus! {

/// A caller finds the socket that the callee's server listens on: the server
/// of the container with bundle `bundle` listens at `bundle + ".sock"`, and the
/// caller, finding that container's `config.json`, connects to the socket of
/// the directory it derives, which is the same path (for a bundle path in
/// which `"/config.json"` only occurs as the appended file).
pub proof fn law_found_socket_is_served_socket(bundle: Seq<char>)
    requires
        forall|i: int| crate::text::occurs_at(bundle + "/config.json"@, i, "/config.json"@) ==> i == bundle.len(),
    ensures
        socket_file(container_dir(bundle + "/config.json"@)) == socket_file(bundle),
{
    reveal_strlit("/config.json");
    crate::text::lemma_replace_all_only_at_end(bundle, "/config.json"@);
}

} // verus!
