//! What the shim reads of a container's OCI runtime specification.
//!
//! `OciSpec` holds, as plain values, the parts of the runtime specification
//! (`config.json`) that the shim's decisions depend on.
use vstd::prelude::*;

use crate::text::{
    chars_of, lemma_filter_map_members, lemma_map_values_push, replace_all, replace_str, str_equal,
    texts,
};

verus! {

/// The process of a container: its arguments and its environment.
pub struct Process {
    pub args: Option<Vec<String>>,
    pub env: Option<Vec<String>>,
}

/// A mount of a container: where it is mounted (`None` when the path is not
/// valid UTF-8) and its type.
pub struct Mount {
    pub destination: Option<String>,
    pub typ: Option<String>,
}

/// The root file system of a container.
pub struct Root {
    pub path: String,
}

/// The parts of an OCI runtime specification that the shim reads.
pub struct OciSpec {
    pub process: Option<Process>,
    pub mounts: Option<Vec<Mount>>,
    /// The annotations as key and value pairs.
    pub annotations: Option<Vec<(String, String)>>,
    pub root: Option<Root>,
}

/// The arguments of the specification's process; none when it has no process
/// or the process no arguments.
pub open spec fn wasi_args(spec: OciSpec) -> Seq<String> {
    match spec.process {
        Some(process) => match process.args {
            Some(args) => args@,
            None => seq![],
        },
        None => seq![],
    }
}

/// The arguments handed to the WASI module: the process's arguments, empty
/// when the specification has no process or the process no arguments.
pub fn arg_to_wasi(spec: &OciSpec) -> (args: Vec<String>)
    ensures
        args@ == wasi_args(*spec),
{
    match &spec.process {
        Some(process) => match &process.args {
            Some(args) => args.clone(),
            None => Vec::new(),
        },
        None => Vec::new(),
    }
}

/// The environment of the specification's process, or none if it has none.
pub open spec fn wasi_env(spec: OciSpec) -> Seq<String> {
    match spec.process.unwrap().env {
        Some(env) => env@,
        None => seq![],
    }
}

/// The environment handed to the WASI module: the process's environment,
/// empty when the process sets none. The process must be present.
pub fn env_to_wasi(spec: &OciSpec) -> (env: Vec<String>)
    requires
        spec.process is Some,
    ensures
        env@ == wasi_env(*spec),
{
    match &spec.process {
        Some(process) => match &process.env {
            Some(env) => env.clone(),
            None => Vec::new(),
        },
        None => Vec::new(),
    }
}

/// A mount that the WASI module sees: a bind or tmpfs mount whose destination is text.
pub open spec fn wasm_mount(m: Mount) -> bool {
    &&& m.typ is Some
    &&& (m.typ.unwrap()@ == "bind"@ || m.typ.unwrap()@ == "tmpfs"@)
    &&& m.destination is Some
}

/// The destinations of the mounts among `mounts` that the WASI module sees, in order.
pub open spec fn wasm_mount_destinations(mounts: Seq<Mount>) -> Seq<Seq<char>>
    decreases mounts.len(),
{
    if mounts.len() == 0 {
        seq![]
    } else {
        let rest = wasm_mount_destinations(mounts.drop_last());
        if wasm_mount(mounts.last()) {
            rest.push(mounts.last().destination.unwrap()@)
        } else {
            rest
        }
    }
}

/// The destinations of the specification's bind and tmpfs mounts, in order.
pub open spec fn wasm_mounts(spec: OciSpec) -> Seq<Seq<char>> {
    match spec.mounts {
        Some(mounts) => wasm_mount_destinations(mounts@),
        None => seq![],
    }
}

/// The destination of a mount, as text.
pub open spec fn mount_destination(m: Mount) -> Seq<char> {
    m.destination.unwrap()@
}

/// The destinations of the mounts that the WASI module sees, in order, are the
/// mounts kept by the filter `wasm_mount`, each taken by its destination.
pub proof fn lemma_wasm_mount_destinations_filter(mounts: Seq<Mount>)
    ensures
        wasm_mount_destinations(mounts) == mounts.filter(|m: Mount| wasm_mount(m)).map_values(
            |m: Mount| mount_destination(m),
        ),
    decreases mounts.len(),
{
    if mounts.len() > 0 {
        let dl = mounts.drop_last();
        lemma_wasm_mount_destinations_filter(dl);
        assert(dl.push(mounts.last()) =~= mounts);
        dl.lemma_filter_push(mounts.last(), |m: Mount| wasm_mount(m));
        if wasm_mount(mounts.last()) {
            lemma_map_values_push(
                dl.filter(|m: Mount| wasm_mount(m)),
                mounts.last(),
                |m: Mount| mount_destination(m),
            );
        }
    }
}

/// The module sees exactly the bind and tmpfs mounts of the specification
/// that have a text destination, in the specification's order: each such
/// mount gives its destination, every destination comes from such a mount,
/// and a specification without mounts gives none.
pub proof fn law_wasm_mounts_are_bind_and_tmpfs_mounts(spec: OciSpec)
    ensures
        spec.mounts is None ==> wasm_mounts(spec).len() == 0,
        spec.mounts is Some ==> wasm_mounts(spec) == spec.mounts.unwrap()@.filter(
            |m: Mount| wasm_mount(m),
        ).map_values(|m: Mount| mount_destination(m)),
        spec.mounts is Some ==> forall|k: int|
            0 <= k < spec.mounts.unwrap()@.len() && wasm_mount(spec.mounts.unwrap()@[k])
                ==> #[trigger] wasm_mounts(spec).contains(
                mount_destination(spec.mounts.unwrap()@[k]),
            ),
        spec.mounts is Some ==> forall|x: Seq<char>|
            #[trigger] wasm_mounts(spec).contains(x) ==> exists|k: int|
                0 <= k < spec.mounts.unwrap()@.len() && wasm_mount(spec.mounts.unwrap()@[k])
                    && mount_destination(spec.mounts.unwrap()@[k]) == x,
{
    if let Some(mounts) = spec.mounts {
        lemma_wasm_mount_destinations_filter(mounts@);
        let p = |m: Mount| wasm_mount(m);
        let f = |m: Mount| mount_destination(m);
        lemma_filter_map_members(mounts@, p, f);
        assert forall|k: int| 0 <= k < mounts@.len() && wasm_mount(mounts@[k]) implies #[trigger] wasm_mounts(
            spec,
        ).contains(mount_destination(mounts@[k])) by {
            assert(p(mounts@[k]));
            assert(mounts@.filter(p).map_values(f).contains(f(mounts@[k])));
        }
        assert forall|x: Seq<char>| #[trigger] wasm_mounts(spec).contains(x) implies exists|k: int|
            0 <= k < mounts@.len() && wasm_mount(mounts@[k]) && mount_destination(mounts@[k]) == x by {
            assert(mounts@.filter(p).map_values(f).contains(x));
            let k = choose|k: int| 0 <= k < mounts@.len() && p(mounts@[k]) && f(mounts@[k]) == x;
            assert(wasm_mount(mounts@[k]) && mount_destination(mounts@[k]) == x);
        }
    }
}

/// The destinations of the bind and tmpfs mounts, in the order of the
/// specification: every mount whose type is `bind` or `tmpfs` and whose
/// destination is text gives its destination, and nothing else is given.
pub fn get_wasm_mounts(spec: &OciSpec) -> (dests: Vec<String>)
    ensures
        dests@.map_values(|d: String| d@) == wasm_mounts(*spec),
        spec.mounts is None ==> dests@.len() == 0,
        spec.mounts is Some ==> texts(dests@) == spec.mounts.unwrap()@.filter(
            |m: Mount| wasm_mount(m),
        ).map_values(|m: Mount| mount_destination(m)),
        spec.mounts is Some ==> forall|k: int|
            0 <= k < spec.mounts.unwrap()@.len() && wasm_mount(spec.mounts.unwrap()@[k])
                ==> #[trigger] texts(dests@).contains(
                mount_destination(spec.mounts.unwrap()@[k]),
            ),
        spec.mounts is Some ==> forall|x: Seq<char>|
            #[trigger] texts(dests@).contains(x) ==> exists|k: int|
                0 <= k < spec.mounts.unwrap()@.len() && wasm_mount(spec.mounts.unwrap()@[k])
                    && mount_destination(spec.mounts.unwrap()@[k]) == x,
{
    proof {
        law_wasm_mounts_are_bind_and_tmpfs_mounts(*spec);
    }
    let mut dests: Vec<String> = Vec::new();
    match &spec.mounts {
        None => {
            assert(dests@.map_values(|d: String| d@) =~= seq![]);
        },
        Some(mounts) => {
            let mut i: usize = 0;
            while i < mounts.len()
                invariant
                    i <= mounts.len(),
                    dests@.map_values(|d: String| d@) == wasm_mount_destinations(
                        mounts@.take(i as int),
                    ),
                decreases mounts.len() - i,
            {
                let m = &mounts[i];
                let ghost before = dests@;
                assert(mounts@.take(i + 1).drop_last() =~= mounts@.take(i as int));
                let kept = match (&m.typ, &m.destination) {
                    (Some(typ), Some(dest)) => {
                        if str_equal(typ.as_str(), "bind") || str_equal(typ.as_str(), "tmpfs") {
                            dests.push(dest.clone());
                            true
                        } else {
                            false
                        }
                    },
                    _ => false,
                };
                assert(kept == wasm_mount(mounts@.take(i + 1).last()));
                assert(dests@.map_values(|d: String| d@) =~= wasm_mount_destinations(
                    mounts@.take(i + 1),
                ));
                i += 1;
            }
            assert(mounts@.take(mounts.len() as int) =~= mounts@);
        },
    }
    dests
}

/// The value of the first of `pairs` whose key is `key`.
pub open spec fn pair_value(pairs: Seq<(String, String)>, key: Seq<char>) -> Option<Seq<char>>
    decreases pairs.len(),
{
    if pairs.len() == 0 {
        None
    } else if pairs[0].0@ == key {
        Some(pairs[0].1@)
    } else {
        pair_value(pairs.drop_first(), key)
    }
}

/// The value of the annotation `key`, empty when there is none.
pub open spec fn annotation(spec: OciSpec, key: Seq<char>) -> Seq<char> {
    match spec.annotations {
        Some(pairs) => match pair_value(pairs@, key) {
            Some(v) => v,
            None => seq![],
        },
        None => seq![],
    }
}

/// The value that `pairs` gives `key` is that of the first pair with that key,
/// wherever it stands; there is none when no pair has that key.
pub proof fn law_pair_value_is_first_match(pairs: Seq<(String, String)>, key: Seq<char>)
    ensures
        forall|i: int|
            0 <= i < pairs.len() && (#[trigger] pairs[i]).0@ == key && (forall|j: int|
                0 <= j < i ==> pairs[j].0@ != key) ==> pair_value(pairs, key) == Some(pairs[i].1@),
        (forall|i: int| 0 <= i < pairs.len() ==> (#[trigger] pairs[i]).0@ != key) ==> pair_value(
            pairs,
            key,
        ) is None,
    decreases pairs.len(),
{
    if pairs.len() > 0 {
        let rest = pairs.drop_first();
        law_pair_value_is_first_match(rest, key);
        assert forall|i: int|
            0 <= i < pairs.len() && (#[trigger] pairs[i]).0@ == key && (forall|j: int|
                0 <= j < i ==> pairs[j].0@ != key) implies pair_value(pairs, key) == Some(
            pairs[i].1@,
        ) by {
            if i > 0 {
                assert(pairs[0].0@ != key);
                assert(rest[i - 1] == pairs[i]);
                assert forall|j: int| 0 <= j < i - 1 implies rest[j].0@ != key by {
                    assert(rest[j] == pairs[j + 1]);
                }
            }
        }
        if forall|i: int| 0 <= i < pairs.len() ==> (#[trigger] pairs[i]).0@ != key {
            assert(pairs[0].0@ != key);
            assert forall|i: int| 0 <= i < rest.len() implies (#[trigger] rest[i]).0@ != key by {
                assert(rest[i] == pairs[i + 1]);
            }
        }
    }
}

/// The value of the annotation `annotation_key`, or the empty string when the
/// specification has no such annotation: the value of the first annotation
/// with that key, wherever it stands.
pub fn get_wasm_annotations(spec: &OciSpec, annotation_key: &str) -> (value: String)
    ensures
        value@ == annotation(*spec, annotation_key@),
        spec.annotations is None ==> value@.len() == 0,
        spec.annotations is Some ==> forall|i: int|
            0 <= i < spec.annotations.unwrap()@.len() && (
            #[trigger] spec.annotations.unwrap()@[i]).0@ == annotation_key@ && (forall|j: int|
                0 <= j < i ==> spec.annotations.unwrap()@[j].0@ != annotation_key@) ==> value@
                == spec.annotations.unwrap()@[i].1@,
        spec.annotations is Some && (forall|i: int|
            0 <= i < spec.annotations.unwrap()@.len() ==> (
            #[trigger] spec.annotations.unwrap()@[i]).0@ != annotation_key@) ==> value@.len() == 0,
{
    proof {
        if spec.annotations is Some {
            law_pair_value_is_first_match(spec.annotations.unwrap()@, annotation_key@);
        }
    }
    match &spec.annotations {
        None => String::new(),
        Some(pairs) => {
            let mut i: usize = 0;
            assert(pairs@.subrange(0, pairs.len() as int) =~= pairs@);
            while i < pairs.len()
                invariant
                    i <= pairs.len(),
                    spec.annotations == Some(*pairs),
                    pair_value(pairs@, annotation_key@) == pair_value(
                        pairs@.subrange(i as int, pairs.len() as int),
                        annotation_key@,
                    ),
                decreases pairs.len() - i,
            {
                let ghost rest = pairs@.subrange(i as int, pairs.len() as int);
                assert(rest[0] == pairs@[i as int]);
                assert(rest.drop_first() =~= pairs@.subrange(i + 1, pairs.len() as int));
                if str_equal(pairs[i].0.as_str(), annotation_key) {
                    let value = pairs[i].1.clone();
                    assert(pair_value(rest, annotation_key@) == Some(value@));
                    proof {
                        law_pair_value_is_first_match(pairs@, annotation_key@);
                    }
                    return value;
                }
                i += 1;
            }
            assert(pairs@.subrange(i as int, pairs.len() as int) =~= seq![]);
            String::new()
        },
    }
}

/// The name of a function's channel: its module path without `'/'` and
/// without `".wasm"`, as in `"/func_b.wasm"` to `"func_b"`.
pub open spec fn channel_of(module_arg: Seq<char>) -> Seq<char> {
    replace_all(replace_all(module_arg, "/"@, seq![]), ".wasm"@, seq![])
}

/// The channel (and shared memory name) of the function whose first
/// argument is `module_arg`.
pub fn channel_name(module_arg: &str) -> (name: String)
    ensures
        name@ == channel_of(module_arg@),
{
    proof {
        reveal_strlit("/");
        reveal_strlit(".wasm");
        reveal_strlit("");
    }
    assert(""@ =~= seq![]);
    let without_slash = replace_str(module_arg, "/", "");
    replace_str(without_slash.as_str(), ".wasm", "")
}

/// A function's name as it is looked up among containers: its module path
/// without `'/'`, as in `"/func_b.wasm"` to `"func_b.wasm"`.
pub open spec fn function_name_of(module_arg: Seq<char>) -> Seq<char> {
    replace_all(module_arg, "/"@, seq![])
}

/// The name under which the function with first argument `module_arg` is found.
pub fn function_name(module_arg: &str) -> (name: String)
    ensures
        name@ == function_name_of(module_arg@),
{
    proof {
        reveal_strlit("/");
        reveal_strlit("");
    }
    assert(""@ =~= seq![]);
    replace_str(module_arg, "/", "")
}

/// The second argument that the module receives after its input.
pub open spec fn module_operand() -> Seq<char> {
    "15"@
}

/// The WASI arguments of a call of the module: its path, the input, and the
/// fixed operand `15`.
pub fn vm_arguments(module_arg: &str, input: &str) -> (args: Vec<String>)
    ensures
        args@.len() == 3,
        args@[0]@ == module_arg@,
        args@[1]@ == input@,
        args@[2]@ == module_operand(),
{
    let mut args: Vec<String> = Vec::new();
    args.push(module_arg.to_owned());
    args.push(input.to_owned());
    args.push("15".to_owned());
    args
}

} // verus!
