use containerd_shim_cwasi::socket::{
    clean_reply, client_input, combined_result, exit_request_of, forwarded_input, is_exit_line,
    module_reply_of, number_request_of, received_at_of, result_reply_of, source_request_of,
};
use containerd_shim_cwasi::patterns::reply_number;

#[test]
fn requests_frame_their_input() {
    assert_eq!(source_request_of("abc"), "Data input from source fn abc \n");
    assert_eq!(number_request_of(-7), "Data input from fn A -7 \n");
    assert_eq!(number_request_of(12), "Data input from fn A 12 \n");
}

#[test]
fn reception_answer_and_cleaning() {
    let answer = received_at_of("2024-01-01T00:00:00.123456789Z");
    assert_eq!(answer, "Received from client at : 2024-01-01T00:00:00.123456789Z");
    assert_eq!(clean_reply(&answer), "2024-01-01T00:00:00.123456789Z");
    assert_eq!(clean_reply("a\nb\n"), "ab");
}

#[test]
fn result_answers() {
    assert_eq!(result_reply_of(20), "hello world from from fnB socket server. Result from Module B : 20");
    assert_eq!(module_reply_of(5), "hello world from fnB socket server. Result from Module B: 5");
}

#[test]
fn a_non_negative_result_is_read_back() {
    for r in [0, 7, 20, i32::MAX] {
        assert_eq!(reply_number(&result_reply_of(r)), Some(r));
    }
}

#[test]
fn a_negative_result_loses_its_sign() {
    assert_eq!(reply_number(&result_reply_of(-5)), Some(5));
}

#[test]
fn exit_request_stops_the_server() {
    assert_eq!(exit_request_of(), "exit");
    assert!(is_exit_line("exit"));
    assert!(!is_exit_line("exit\n"));
}

#[test]
fn client_input_is_trimmed() {
    assert_eq!(client_input("Data input from fn A 12 \n"), "Data input from fn A 12");
}

#[test]
fn sums_of_a_call() {
    assert_eq!(forwarded_input(3, 4), 7);
    assert_eq!(combined_result(3, 4, 20), 27);
}
