use containerd_shim_cwasi::oci_utils::{Mount, OciSpec};
use containerd_shim_cwasi::sandbox::{
    entry_module_name, env_assignments, exit_code_of, module_file_of, preopen_dirs,
    registered_module_name_of, vm_paths, WaitOutcome,
};
use containerd_shim_cwasi::shared_memory::{read_shared, segment_name_of, write_shared, SharedData};

fn s(x: &str) -> String {
    x.to_string()
}

#[test]
fn vm_paths_of_a_root_file_system() {
    let p = vm_paths("/run/containerd/k8s.io/abc/rootfs").unwrap();
    assert_eq!(p.root_dir, "/run/containerd/k8s.io/abc/rootfs");
    assert_eq!(p.bundle, "/run/containerd/k8s.io/abc");
    assert_eq!(p.container_name, "abc");
    assert!(vm_paths("rootfs").is_none());
}

#[test]
fn module_files_under_the_root() {
    assert_eq!(module_file_of("/r", "x"), "/r/x.wasm");
    assert_eq!(module_file_of("/r", "/x"), "/x.wasm");
}

#[test]
fn registered_names_drop_the_extension() {
    assert_eq!(registered_module_name_of("/a/b/lib.wasm"), Some(s("lib")));
    assert_eq!(registered_module_name_of("/a/b/.."), None);
}

#[test]
fn preopens_are_root_then_mounts() {
    let spec = OciSpec {
        process: None,
        mounts: Some(vec![
            Mount { destination: Some(s("/data")), typ: Some(s("bind")) },
            Mount { destination: Some(s("/dev")), typ: Some(s("devtmpfs")) },
        ]),
        annotations: None,
        root: None,
    };
    assert_eq!(preopen_dirs(&Some(s("/r")), &spec), vec![s("/r"), s("/data")]);
    assert_eq!(preopen_dirs(&None, &spec), vec![s(""), s("/data")]);
}

#[test]
fn environment_as_assignments() {
    assert_eq!(env_assignments(&vec![(s("A"), s("1")), (s("PATH"), s("/bin"))]), vec![s("A=1"), s("PATH=/bin")]);
}

#[test]
fn entry_module_defaults_to_main() {
    assert_eq!(entry_module_name(None), "main");
    assert_eq!(entry_module_name(Some(s("app"))), "app");
}

#[test]
fn exit_codes_of_wait_outcomes() {
    assert_eq!(exit_code_of(&WaitOutcome::Exited(3)), 3);
    assert_eq!(exit_code_of(&WaitOutcome::Signaled(9)), 9);
    assert_eq!(exit_code_of(&WaitOutcome::Exited(-1)), u32::MAX);
    assert_eq!(exit_code_of(&WaitOutcome::Other), 0);
    assert_eq!(exit_code_of(&WaitOutcome::NoChild), 0);
    assert_eq!(exit_code_of(&WaitOutcome::Failed), 137);
}

#[test]
fn shared_memory_gives_back_what_was_written() {
    let mut segment = SharedData::new();
    assert_eq!(segment.size(), 0);
    assert!(segment.read_message().is_empty());
    let message = b"payload for func_b".to_vec();
    segment.write_message(&message);
    assert_eq!(segment.size() as usize, message.len());
    assert_eq!(segment.read_message(), message);
    let shorter = b"ab".to_vec();
    segment.write_message(&shorter);
    assert_eq!(segment.read_message(), shorter);
}

#[test]
fn segment_names_start_with_a_slash() {
    assert_eq!(segment_name_of("func_b"), "/func_b");
}

#[test]
fn shared_slices_give_back_what_was_written() {
    let mut data = vec![7u8; 8];
    let size = write_shared(&mut data, b"abc").unwrap();
    assert_eq!(size, 3);
    assert_eq!(data, vec![b'a', b'b', b'c', 7, 7, 7, 7, 7]);
    assert_eq!(read_shared(&data, size), Some(b"abc".to_vec()));
    assert_eq!(read_shared(&data, 0), Some(vec![]));
    assert_eq!(read_shared(&data, 9), None);
}

#[test]
fn shared_write_refuses_what_does_not_fit() {
    let mut data = vec![1u8; 2];
    assert_eq!(write_shared(&mut data, b"abc"), None);
    assert_eq!(data, vec![1, 1]);
    assert_eq!(write_shared(&mut data, b"xy"), Some(2));
    assert_eq!(data, b"xy".to_vec());
}

#[test]
fn plain_paths_lose_their_last_component() {
    let p = vm_paths("/run/k8s/abc/rootfs").unwrap();
    assert_eq!(p.bundle, "/run/k8s/abc");
    assert_eq!(p.container_name, "abc");
    let p = vm_paths("/abc/rootfs").unwrap();
    assert_eq!(p.bundle, "/abc");
    assert_eq!(registered_module_name_of("lib.wasm"), Some(s("lib")));
    assert_eq!(registered_module_name_of("/a/b/env"), Some(s("env")));
}
