use containerd_shim_cwasi::message::{received_on, Message};
use containerd_shim_cwasi::oci_utils::{
    arg_to_wasi, channel_name, env_to_wasi, function_name, get_wasm_annotations, get_wasm_mounts, vm_arguments,
    Mount, OciSpec, Process, Root,
};

fn s(x: &str) -> String {
    x.to_string()
}

fn spec_with(mounts: Option<Vec<Mount>>, annotations: Option<Vec<(String, String)>>) -> OciSpec {
    OciSpec {
        process: Some(Process { args: Some(vec![s("/func_b.wasm")]), env: Some(vec![s("A=1"), s("B=2")]) }),
        mounts,
        annotations,
        root: Some(Root { path: s("/run/c/abc/rootfs") }),
    }
}

#[test]
fn message_new_keeps_its_parts() {
    let m = Message::new(s("src"), s("dst"), s("data"));
    assert_eq!(m.source_channel, "src");
    assert_eq!(m.target_channel, "dst");
    assert_eq!(m.payload, "data");
}

#[test]
fn answer_goes_back_to_the_sender() {
    let m = Message::new(s("caller-id"), s("func_b"), s("42"));
    let a = m.answer_from(s("func_b"));
    assert_eq!(a.source_channel, "func_b");
    assert_eq!(a.target_channel, "caller-id");
    assert_eq!(a.payload, "42");
}

#[test]
fn timed_channel_gets_reception_time() {
    let m = received_on("func_b", Message::new(s("a"), s("func_b"), s("p")), s("at T"));
    assert_eq!(m.payload, "at T");
    assert_eq!(m.source_channel, "a");
    let m = received_on("func_c", Message::new(s("a"), s("func_c"), s("p")), s("at T"));
    assert_eq!(m.payload, "p");
}

#[test]
fn env_is_the_process_environment() {
    let spec = spec_with(None, None);
    assert_eq!(env_to_wasi(&spec), vec![s("A=1"), s("B=2")]);
    let spec = OciSpec { process: Some(Process { args: None, env: None }), mounts: None, annotations: None, root: None };
    assert!(env_to_wasi(&spec).is_empty());
}

#[test]
fn only_bind_and_tmpfs_mounts_are_seen() {
    let mounts = vec![
        Mount { destination: Some(s("/data")), typ: Some(s("bind")) },
        Mount { destination: Some(s("/proc")), typ: Some(s("proc")) },
        Mount { destination: Some(s("/tmp")), typ: Some(s("tmpfs")) },
        Mount { destination: None, typ: Some(s("bind")) },
        Mount { destination: Some(s("/x")), typ: None },
    ];
    assert_eq!(get_wasm_mounts(&spec_with(Some(mounts), None)), vec![s("/data"), s("/tmp")]);
    assert!(get_wasm_mounts(&spec_with(None, None)).is_empty());
}

#[test]
fn annotation_value_or_empty() {
    let ann = vec![(s("cwasi.secondary.function"), s("true")), (s("k"), s("v"))];
    let spec = spec_with(None, Some(ann));
    assert_eq!(get_wasm_annotations(&spec, "k"), "v");
    assert_eq!(get_wasm_annotations(&spec, "cwasi.secondary.function"), "true");
    assert_eq!(get_wasm_annotations(&spec, "missing"), "");
    assert_eq!(get_wasm_annotations(&spec_with(None, None), "k"), "");
    assert_eq!(get_wasm_annotations(&spec_with(None, Some(vec![])), "k"), "");
}

#[test]
fn channel_and_function_names_of_a_module() {
    assert_eq!(channel_name("/func_b.wasm"), "func_b");
    assert_eq!(channel_name("/a/b.wasm.wasm"), "ab");
    assert_eq!(function_name("/func_b.wasm"), "func_b.wasm");
}

#[test]
fn module_arguments_are_path_input_and_fifteen() {
    assert_eq!(vm_arguments("/f.wasm", "in"), vec![s("/f.wasm"), s("in"), s("15")]);
}

#[test]
fn args_are_the_process_arguments() {
    let spec = OciSpec {
        process: Some(Process { args: Some(vec![s("/alice.wasm"), s("x")]), env: None }),
        mounts: None,
        annotations: None,
        root: None,
    };
    assert_eq!(arg_to_wasi(&spec), vec![s("/alice.wasm"), s("x")]);
    let spec = OciSpec { process: Some(Process { args: None, env: None }), mounts: None, annotations: None, root: None };
    assert!(arg_to_wasi(&spec).is_empty());
    let spec = OciSpec { process: None, mounts: None, annotations: None, root: None };
    assert!(arg_to_wasi(&spec).is_empty());
}
