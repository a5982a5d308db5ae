use containerd_shim_cwasi::dispatcher::DirEntry;
use containerd_shim_cwasi::patterns::{
    container_name, extract_modules_from_wat, import_modules_of, module_files_of_imports, module_text_of,
    reply_number, reply_timestamp_of,
};
use containerd_shim_cwasi::timing::{
    duration_millis, epoch_todate, extract_timestamp, fan_in_latency, instant_of,
    is_valid_instant_exec, timestamp_text, UtcTime, EARLIEST_SECS, LATEST_SECS,
};

fn s(x: &str) -> String {
    x.to_string()
}

#[test]
fn reply_number_removes_the_first_non_digit_run() {
    assert_eq!(reply_number("12ab34"), Some(1234));
    assert_eq!(reply_number("x-5"), Some(5));
    assert_eq!(reply_number("abc"), None);
    assert_eq!(reply_number("value: 99999999999"), None);
}

#[test]
fn reply_timestamp_cuts_at_the_first_z() {
    assert_eq!(reply_timestamp_of("2024-01-01T00:00:00.123Z"), "2024-01-01T00:00:00.123Z");
    assert_eq!(reply_timestamp_of("Received from client at 12Z34\nrest"), "12\nrestZ");
    assert_eq!(reply_timestamp_of("no zed"), "no zedZ");
}

#[test]
fn container_name_is_the_parent_directory() {
    assert_eq!(container_name("/run/containerd/k8s.io/abc/rootfs"), Some(s("abc")));
    assert_eq!(container_name("rootfs"), None);
    assert_eq!(container_name("/rootfs"), None);
    assert_eq!(container_name("a/"), None);
    assert_eq!(container_name("a//b"), None);
}

#[test]
fn imports_name_module_files_once() {
    let wat = "(module\n  (import \"env\" \"f\" (func))\n  (import \"env\" \"g\" (func))\n  (import \"lib\" \"h\" (func)))";
    assert_eq!(import_modules_of(wat), vec![s("env.wasm"), s("lib.wasm")]);
    assert_eq!(module_files_of_imports(&vec![s("import \"a\""), s("import \"b\""), s("import \"a\"")]), vec![s("a.wasm"), s("b.wasm")]);
    assert!(import_modules_of("(module)").is_empty());
}

/// A module that imports the function `f` of the module `env`.
fn module_importing_env() -> Vec<u8> {
    vec![
        0x00, 0x61, 0x73, 0x6d, 0x01, 0x00, 0x00, 0x00, // header
        0x01, 0x04, 0x01, 0x60, 0x00, 0x00, // one type: () -> ()
        0x02, 0x09, 0x01, 0x03, 0x65, 0x6e, 0x76, 0x01, 0x66, 0x00, 0x00, // import env.f
    ]
}

#[test]
fn module_text_of_bytes() {
    let text = module_text_of(&module_importing_env());
    assert!(text.contains("(import \"env\" \"f\""));
    assert_eq!(module_text_of(&b"not wasm".to_vec()), "");
}

#[test]
fn imported_modules_found_among_images() {
    let entries = vec![
        DirEntry { path: s("/s/1/env.wasm"), file_name: s("env.wasm"), is_file: true },
        DirEntry { path: s("/s/2/x.wasm"), file_name: s("x.wasm"), is_file: true },
    ];
    assert_eq!(extract_modules_from_wat(&module_importing_env(), &entries), vec![s("/s/1/env.wasm")]);
    assert!(extract_modules_from_wat(&vec![], &entries).is_empty());
}

#[test]
fn epoch_nanoseconds_split_into_seconds() {
    let t = epoch_todate(1_500_000_000_123_456_789);
    assert_eq!((t.secs, t.nanos), (1_500_000_000, 123_456_789));
    let t = epoch_todate(-2_000_000_000);
    assert_eq!((t.secs, t.nanos), (-2, 0));
    let t = epoch_todate(0);
    assert_eq!((t.secs, t.nanos), (0, 0));
}

#[test]
fn rfc3339_text_is_read_as_utc() {
    let t = instant_of("1970-01-01T00:00:01.5Z").unwrap();
    assert_eq!((t.secs, t.nanos), (1, 500_000_000));
    let t = instant_of("1970-01-01T01:00:00+01:00").unwrap();
    assert_eq!((t.secs, t.nanos), (0, 0));
    assert!(instant_of("yesterday").is_none());
}

#[test]
fn timestamp_is_the_fourth_word() {
    let t = extract_timestamp("start transfer at 2024-01-01T00:00:00Z").unwrap();
    assert_eq!((t.secs, t.nanos), (1_704_067_200, 0));
    assert!(extract_timestamp("start transfer at").is_none());
    assert!(extract_timestamp("start transfer at noon").is_none());
}

#[test]
fn milliseconds_between_instants_round_toward_zero() {
    let a = UtcTime { secs: 1, nanos: 500_000_000 };
    let b = UtcTime { secs: 3, nanos: 250_999_999 };
    assert_eq!(duration_millis(a, b), 1750);
    let a = UtcTime { secs: 1, nanos: 500_000_000 };
    let b = UtcTime { secs: 3, nanos: 250_000_000 };
    assert_eq!(duration_millis(b, a), -1750);
}

#[test]
fn fan_in_latency_in_microseconds() {
    let start = UtcTime { secs: 1_704_067_200, nanos: 0 };
    assert_eq!(fan_in_latency("2024-01-01T00:00:01.5Z", start), Some(s("1500000")));
    assert_eq!(fan_in_latency("not a time", start), None);
}

#[test]
fn instants_written_with_nanoseconds() {
    assert_eq!(timestamp_text(UtcTime { secs: 0, nanos: 5 }), "1970-01-01T00:00:00.000000005Z");
}

#[test]
fn valid_instants_are_those_chrono_represents() {
    for secs in [EARLIEST_SECS - 1, EARLIEST_SECS, 0, LATEST_SECS, LATEST_SECS + 1] {
        let t = UtcTime { secs, nanos: 0 };
        assert_eq!(is_valid_instant_exec(t), chrono::DateTime::from_timestamp(secs, 0).is_some());
    }
    assert!(is_valid_instant_exec(UtcTime { secs: EARLIEST_SECS, nanos: 0 }));
    assert!(is_valid_instant_exec(UtcTime { secs: LATEST_SECS, nanos: 999_999_999 }));
    assert!(!is_valid_instant_exec(UtcTime { secs: LATEST_SECS + 1, nanos: 0 }));
    assert!(!is_valid_instant_exec(UtcTime { secs: EARLIEST_SECS - 1, nanos: 0 }));
    assert!(is_valid_instant_exec(UtcTime { secs: 59, nanos: 1_500_000_000 }));
    assert!(!is_valid_instant_exec(UtcTime { secs: 58, nanos: 1_500_000_000 }));
    assert!(is_valid_instant_exec(UtcTime { secs: -1, nanos: 1_000_000_000 }));
    assert!(!is_valid_instant_exec(UtcTime { secs: -2, nanos: 1_000_000_000 }));
    assert!(!is_valid_instant_exec(UtcTime { secs: 59, nanos: 2_000_000_000 }));
    for secs in [-61, -1, -2, 59, 119, 3] {
        for nanos in [0, 999_999_999, 1_000_000_000, 1_999_999_999, 2_000_000_000] {
            let t = UtcTime { secs, nanos };
            assert_eq!(is_valid_instant_exec(t), chrono::DateTime::from_timestamp(secs, nanos).is_some());
        }
    }
}

#[test]
fn earliest_and_latest_instants_as_text() {
    assert_eq!(timestamp_text(UtcTime { secs: LATEST_SECS, nanos: 0 }), "+262142-12-31T23:59:59.000000000Z");
    assert_eq!(timestamp_text(UtcTime { secs: EARLIEST_SECS, nanos: 0 }), "-262143-01-01T00:00:00.000000000Z");
}
