use rust_just_rates::app::{
    respond_to_command, respond_to_datagram, respond_to_invalid_utf8, respond_to_text,
    PublisherMessage, PublisherOutcome,
};
use rust_just_rates::registry::SubscriberRegistry;
use rust_just_rates::text::{bytes_equal, describe_utf8_fault, push_decimal, Utf8Fault};

fn reply_to(datagram: &[u8], subscriber_count: usize) -> String {
    match respond_to_datagram(datagram, subscriber_count) {
        PublisherOutcome::Reply(text) => text,
        PublisherOutcome::Publish(message) => {
            panic!("expected a reply, got a published payload: {}", message.payload)
        }
    }
}

fn published_from(datagram: &[u8], subscriber_count: usize) -> PublisherMessage {
    match respond_to_datagram(datagram, subscriber_count) {
        PublisherOutcome::Publish(message) => message,
        PublisherOutcome::Reply(text) => panic!("expected a published payload, got reply: {}", text),
    }
}

fn invalid_utf8_datagram() -> Vec<u8> {
    let mut invalid_utf8_bytes = "DATA Something more".as_bytes().to_owned();
    invalid_utf8_bytes[6] = 147;
    invalid_utf8_bytes[7] = 147;
    invalid_utf8_bytes[8] = 147;
    invalid_utf8_bytes
}

#[test]
fn publisher_sends_invalid_utf8_characters_expect_error_returned_test() {
    let reply = reply_to(&invalid_utf8_datagram(), 0);
    assert_eq!(
        "ERROR Invalid utf8 bytes. Error details: invalid utf-8 sequence of 1 bytes from index 6",
        reply
    );
}

#[test]
fn invalid_utf8_characters_expect_error_returned_test() {
    let reply = reply_to(&invalid_utf8_datagram(), 3);
    assert_eq!(
        "ERROR Invalid utf8 bytes. Error details: invalid utf-8 sequence of 1 bytes from index 6",
        reply.as_str()
    );
}

#[test]
fn receive_invalid_utf8_characters_expect_error_returned_test() {
    let reply = reply_to(&invalid_utf8_datagram(), 1);
    assert_eq!(
        "ERROR Invalid utf8 bytes. Error details: invalid utf-8 sequence of 1 bytes from index 6",
        reply.as_str()
    );
}

#[test]
fn ping_expect_pong_returned_test() {
    let reply = reply_to("PING".as_bytes(), 0);
    assert_eq!("PONG", reply.as_str());
}

#[test]
fn receive_ping_expect_pong_returned_test() {
    let reply = reply_to("PING".as_bytes(), 5);
    assert_eq!("PONG", reply.as_str());
}

#[test]
fn data_expect_message_ended_up_in_channel_test() {
    let first = published_from(
        "DATA This is the data provided \n in multiple \n\r lines".as_bytes(),
        0,
    );
    let second = published_from("DATA This is another message".as_bytes(), 0);
    assert_eq!("This is the data provided \n in multiple \n\r lines", first.payload.as_str());
    assert_eq!("This is another message", second.payload.as_str());
}

#[test]
fn app_flow_tests_run_no_subscribers_test() {
    let registry: SubscriberRegistry<u32> = SubscriberRegistry::new();
    let reply = reply_to("GET_SUBSCRIBER_COUNT".as_bytes(), registry.subscriber_count());
    assert_eq!("SUBSCRIBER_COUNT 0", reply);

    let message = published_from("DATA Some data content here".as_bytes(), registry.subscriber_count());
    assert_eq!("Some data content here", message.payload);
    assert!(registry.deliveries(&message).is_empty());
}

#[test]
fn app_tests_run_no_subscribers_test() {
    let registry: SubscriberRegistry<u32> = SubscriberRegistry::new();
    assert_eq!(0, registry.subscriber_count());
    let reply = reply_to("GET_SUBSCRIBER_COUNT".as_bytes(), registry.subscriber_count());
    assert_eq!("SUBSCRIBER_COUNT 0", reply);
    let message = published_from("DATA Some data content here".as_bytes(), 0);
    assert_eq!("Some data content here", message.payload);
}

fn expect_reply(sent: &str, expected: &str) {
    assert_eq!(expected, reply_to(sent.as_bytes(), 0));
}

#[test]
fn unknown_command_is_refused_with_its_first_word() {
    expect_reply("INVALID MESSAGE HERE", "ERROR Unexpected protocol command: INVALID");
}

#[test]
fn error_command_is_not_allowed() {
    expect_reply("ERROR", "ERROR Client not allowed to send command ERROR");
}

#[test]
fn error_command_with_payload_is_not_allowed() {
    expect_reply("ERROR With more data", "ERROR Client not allowed to send command ERROR");
}

#[test]
fn subscriber_count_command_is_not_allowed() {
    expect_reply("SUBSCRIBER_COUNT", "ERROR Client not allowed to send command SUBSCRIBER_COUNT");
}

#[test]
fn subscriber_count_command_with_payload_is_not_allowed() {
    expect_reply(
        "SUBSCRIBER_COUNT With more data",
        "ERROR Client not allowed to send command SUBSCRIBER_COUNT",
    );
}

#[test]
fn commands_are_case_sensitive() {
    expect_reply("Get_SUBSCRIBER_COUNT", "ERROR Unexpected protocol command: Get_SUBSCRIBER_COUNT");
    expect_reply("Data", "ERROR Unexpected protocol command: Data");
    expect_reply("Ping", "ERROR Unexpected protocol command: Ping");
    expect_reply("ping", "ERROR Unexpected protocol command: ping");
}

#[test]
fn data_without_payload_is_refused() {
    expect_reply("DATA", "ERROR Empty payload received after a DATA command which is not valid.");
}

#[test]
fn data_with_empty_payload_is_refused() {
    expect_reply("DATA ", "ERROR Empty payload received after a DATA command which is not valid.");
}

#[test]
fn pong_is_not_allowed() {
    expect_reply("PONG", "ERROR Client not allowed to send command PONG");
    expect_reply("PONG With more data", "ERROR Client not allowed to send command PONG");
}

#[test]
fn ping_with_payload_is_refused() {
    expect_reply("PING With more data", "ERROR Unexpected payload for command PING: With more data");
}

#[test]
fn subscriber_count_request_with_payload_is_refused() {
    expect_reply("GET_SUBSCRIBER_COUNT now", "ERROR Unexpected payload for command PING: now");
}

#[test]
fn subscriber_count_is_reported_in_decimal() {
    assert_eq!("SUBSCRIBER_COUNT 17", reply_to("GET_SUBSCRIBER_COUNT".as_bytes(), 17));
    assert_eq!("SUBSCRIBER_COUNT 1000", reply_to("GET_SUBSCRIBER_COUNT".as_bytes(), 1000));
}

#[test]
fn empty_datagram_is_an_unknown_command() {
    expect_reply("", "ERROR Unexpected protocol command: ");
}

#[test]
fn leading_space_makes_an_empty_command() {
    expect_reply(" DATA x", "ERROR Unexpected protocol command: ");
}

#[test]
fn payload_keeps_later_spaces_and_non_ascii_text() {
    let message = published_from("DATA ProductDb OrderWorker 7".as_bytes(), 0);
    assert_eq!("ProductDb OrderWorker 7", message.payload);
    let message = published_from("DATA  héllo wörld ✓ ".as_bytes(), 0);
    assert_eq!(" héllo wörld ✓ ", message.payload);
}

#[test]
fn non_ascii_command_is_echoed_in_refusal() {
    expect_reply("DÄTA x", "ERROR Unexpected protocol command: DÄTA");
}

#[test]
fn truncated_character_is_reported_as_incomplete() {
    let datagram: Vec<u8> = vec![b'D', b'A', b'T', b'A', b' ', 0xE2, 0x82];
    assert_eq!(
        "ERROR Invalid utf8 bytes. Error details: incomplete utf-8 byte sequence from index 5",
        reply_to(&datagram, 0)
    );
}

#[test]
fn broken_three_byte_character_is_reported_with_its_length() {
    let datagram: Vec<u8> = vec![0xE2, 0x82, b'A'];
    assert_eq!(
        "ERROR Invalid utf8 bytes. Error details: invalid utf-8 sequence of 2 bytes from index 0",
        reply_to(&datagram, 0)
    );
}

#[test]
fn respond_to_text_splits_at_first_space() {
    match respond_to_text("DATA a b", 0) {
        PublisherOutcome::Publish(message) => assert_eq!("a b", message.payload),
        PublisherOutcome::Reply(text) => panic!("unexpected reply {}", text),
    }
}

#[test]
fn respond_to_command_answers_each_command() {
    match respond_to_command("GET_SUBSCRIBER_COUNT", "", 42) {
        PublisherOutcome::Reply(text) => assert_eq!("SUBSCRIBER_COUNT 42", text),
        PublisherOutcome::Publish(_) => panic!("unexpected publish"),
    }
    match respond_to_command("DATA", "x", 42) {
        PublisherOutcome::Publish(message) => assert_eq!("x", message.payload),
        PublisherOutcome::Reply(text) => panic!("unexpected reply {}", text),
    }
}

#[test]
fn invalid_utf8_reply_uses_fault_details() {
    let fault = Utf8Fault { valid_up_to: 12, error_len: Some(3) };
    assert_eq!(
        "ERROR Invalid utf8 bytes. Error details: invalid utf-8 sequence of 3 bytes from index 12",
        respond_to_invalid_utf8(&fault)
    );
    let fault = Utf8Fault { valid_up_to: 0, error_len: None };
    assert_eq!(
        "incomplete utf-8 byte sequence from index 0",
        describe_utf8_fault(&fault)
    );
}

#[test]
fn decimal_notation_of_numbers() {
    let cases: [(usize, &str); 5] =
        [(0, "0"), (7, "7"), (10, "10"), (1234567890, "1234567890"), (100, "100")];
    for (n, expected) in cases {
        let mut out = String::from("n=");
        push_decimal(&mut out, n);
        assert_eq!(format!("n={expected}"), out);
    }
    let mut out = String::new();
    push_decimal(&mut out, usize::MAX);
    assert_eq!(usize::MAX.to_string(), out);
}

#[test]
fn byte_slices_compare_by_content() {
    assert!(bytes_equal(b"DATA", b"DATA"));
    assert!(!bytes_equal(b"DATA", b"DATB"));
    assert!(!bytes_equal(b"DATA", b"DAT"));
    assert!(bytes_equal(b"", b""));
}
