use containerd_shim_cwasi::experiment::{marked_line, receiver_marker_of, sender_marker_of, transfer_millis};
use containerd_shim_cwasi::{download_url_of, handle, requested_file};

#[test]
fn handle_answers_with_the_phrase() {
    match handle(b"file_10M.txt".to_vec()) {
        Ok(answer) => assert_eq!(answer, b"Hello, World!".to_vec()),
        Err(_) => panic!("handle does not fail"),
    }
}

#[test]
fn requested_file_is_the_body_as_text() {
    assert_eq!(requested_file(b"hello.txt".to_vec()), Some("hello.txt".to_string()));
    assert_eq!(requested_file(vec![0xff, 0xfe]), None);
}

#[test]
fn download_address_of_a_file() {
    assert_eq!(download_url_of("hello.txt"), "http://192.168.0.221:8888/files/hello.txt");
}

#[test]
fn marked_lines_in_function_output() {
    let out = b"booting\nstart transfer at 2024-01-01T00:00:00Z\nbye\n".to_vec();
    assert_eq!(marked_line(out, &sender_marker_of()), Some("start transfer at 2024-01-01T00:00:00Z".to_string()));
    let out = b"Args read at 2024-01-01T00:00:02.5Z".to_vec();
    assert_eq!(marked_line(out, &receiver_marker_of()), Some("Args read at 2024-01-01T00:00:02.5Z".to_string()));
    assert_eq!(marked_line(b"nothing".to_vec(), "start transfer at"), None);
}

#[test]
fn transfer_time_between_logged_instants() {
    let a = "start transfer at 2024-01-01T00:00:00Z";
    let b = "Args read at 2024-01-01T00:00:02.5Z";
    assert_eq!(transfer_millis(a, b), Some(2500));
    assert_eq!(transfer_millis(b, a), Some(-2500));
    assert_eq!(transfer_millis(a, "Args read at x 2024-01-01T00:00:02.5Z"), None);
}
