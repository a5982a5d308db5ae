use containerd_shim_cwasi::dispatcher::{
    after_failed_attempt, bundles_dir_of, container_dir_of, find_container_path_parallel,
    get_existing_image, is_config_entry_exec, queue_request, route, serves_exec, socket_file_of,
    Candidate, DirEntry, Route,
};

fn s(x: &str) -> String {
    x.to_string()
}

fn entry(path: &str, name: &str, is_file: bool) -> DirEntry {
    DirEntry { path: s(path), file_name: s(name), is_file }
}

#[test]
fn bundles_dir_cuts_the_last_two_parts() {
    assert_eq!(
        bundles_dir_of("/run/containerd/io.containerd.runtime.v2.task/k8s.io/abc"),
        Some(s("/run/containerd/io.containerd.runtime.v2.task/"))
    );
    assert_eq!(bundles_dir_of("/a/b"), Some(s("/")));
    assert_eq!(bundles_dir_of("x/y/z"), Some(s("x/")));
}

#[test]
fn bundles_dir_needs_two_slashes() {
    assert_eq!(bundles_dir_of("a/b"), None);
    assert_eq!(bundles_dir_of("ab"), None);
}

#[test]
fn empty_socket_path_routes_through_the_broker() {
    match route("func_b.wasm", s("")) {
        Route::Remote { channel } => assert_eq!(channel, "func_b"),
        Route::Local { .. } => panic!("expected the broker"),
    }
    match route("func_b.wasm", s("/run/x/abc")) {
        Route::Local { socket_path } => assert_eq!(socket_path, "/run/x/abc"),
        Route::Remote { .. } => panic!("expected the socket"),
    }
}

#[test]
fn queue_request_replies_on_a_fresh_channel() {
    let m = queue_request(s("0123abcd"), s("func_b"), s("payload"));
    assert_eq!(m.source_channel, "0123abcd");
    assert_eq!(m.target_channel, "func_b");
    assert_eq!(m.payload, "payload");
}

#[test]
fn container_dir_and_socket_file() {
    assert_eq!(container_dir_of("/run/k8s.io/abc/config.json"), "/run/k8s.io/abc");
    assert_eq!(socket_file_of("/run/k8s.io/abc"), "/run/k8s.io/abc.sock");
}

#[test]
fn config_entries_are_files_named_config_json() {
    assert!(is_config_entry_exec(&entry("/a/config.json", "config.json", true)));
    assert!(!is_config_entry_exec(&entry("/a/config.json", "config.json", false)));
    assert!(!is_config_entry_exec(&entry("/a/state.json", "state.json", true)));
}

#[test]
fn the_first_serving_container_is_chosen() {
    let cands = vec![
        Candidate { dir: s("/b/one"), module_arg: Some(s("/func_a.wasm")), socket_exists: true },
        Candidate { dir: s("/b/two"), module_arg: Some(s("/func_b.wasm")), socket_exists: false },
        Candidate { dir: s("/b/three"), module_arg: None, socket_exists: true },
        Candidate { dir: s("/b/four"), module_arg: Some(s("/func_b.wasm")), socket_exists: true },
        Candidate { dir: s("/b/five"), module_arg: Some(s("/func_b.wasm")), socket_exists: true },
    ];
    assert!(serves_exec(&cands[3], "func_b.wasm"));
    assert!(!serves_exec(&cands[1], "func_b.wasm"));
    assert_eq!(find_container_path_parallel(&cands, "func_b.wasm"), "/b/four");
    assert_eq!(find_container_path_parallel(&cands, "func_c.wasm"), "");
    assert_eq!(find_container_path_parallel(&vec![], "func_b.wasm"), "");
}

#[test]
fn existing_images_are_the_named_files_in_walk_order() {
    let entries = vec![
        entry("/s/1/fs/lib.wasm", "lib.wasm", true),
        entry("/s/2/fs", "fs", false),
        entry("/s/2/fs/other.wasm", "other.wasm", true),
        entry("/s/3/lib.wasm", "lib.wasm", false),
        entry("/s/4/fs/env.wasm", "env.wasm", true),
    ];
    let names = vec![s("env.wasm"), s("lib.wasm")];
    assert_eq!(get_existing_image(&entries, &names), vec![s("/s/1/fs/lib.wasm"), s("/s/4/fs/env.wasm")]);
    assert!(get_existing_image(&entries, &vec![]).is_empty());
}

#[test]
fn connecting_is_given_up_after_a_thousand_attempts() {
    assert_eq!(after_failed_attempt(0), Some(1));
    assert_eq!(after_failed_attempt(998), Some(999));
    assert_eq!(after_failed_attempt(999), None);
    assert_eq!(after_failed_attempt(u32::MAX), None);
}

#[test]
fn broker_call_reaches_the_listener_channel() {
    let module_arg = "/func_b.wasm";
    let target = containerd_shim_cwasi::oci_utils::function_name(module_arg);
    match route(&target, s("")) {
        Route::Remote { channel } => assert_eq!(channel, containerd_shim_cwasi::oci_utils::channel_name(module_arg)),
        Route::Local { .. } => panic!("expected the broker"),
    }
}

#[test]
fn caller_finds_the_socket_the_server_listens_on() {
    let bundle = "/run/containerd/io.containerd.runtime.v2.task/k8s.io/abc";
    let found = container_dir_of(&format!("{}/config.json", bundle));
    assert_eq!(socket_file_of(&found), socket_file_of(bundle));
}
