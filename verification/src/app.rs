//! The publisher protocol.
//!
//! A publisher sends one command per UDP datagram, as UTF-8 text: a command
//! word, optionally followed by a space and a payload. The relay answers each
//! datagram either by publishing a payload to the subscribers or by replying
//! to the publisher.
use vstd::prelude::*;
use vstd::string::*;
use vstd::utf8::*;
use crate::text::{
    all_digits, decimal_value, lemma_decimal_reads_back,
    bytes_equal, decimal, describe_utf8_fault, lemma_longest_valid_prefix_unique,
    longest_valid_prefix, push_decimal, str_from_utf8, utf8_error_len, utf8_fault_description,
    Utf8Fault,
};

verus! {

/// A payload that a publisher sent with `DATA`, to be relayed to every subscriber.
pub struct PublisherMessage {
    pub payload: String,
}

/// What the relay does with one datagram.
pub ghost enum Response {
    /// Relay this payload to every subscriber; send nothing back.
    Publish(Seq<char>),
    /// Send this text back to the publisher; relay nothing.
    Reply(Seq<char>),
}

/// What the relay does with one datagram, as values to act on.
pub enum PublisherOutcome {
    /// Relay this message to every subscriber; send nothing back.
    Publish(PublisherMessage),
    /// Send this text back to the publisher; relay nothing.
    Reply(String),
}

impl View for PublisherOutcome {
    type V = Response;

    open spec fn view(&self) -> Response {
        match self {
            PublisherOutcome::Publish(message) => Response::Publish(message.payload@),
            PublisherOutcome::Reply(text) => Response::Reply(text@),
        }
    }
}

/// No character of `s` is a space.
pub open spec fn space_free(s: Seq<char>) -> bool {
    forall|i: int| 0 <= i < s.len() ==> s[i] != ' '
}

/// Splits a datagram's text into its command (the text before the first
/// space) and its payload (the text after that space; empty without one).
pub open spec fn split_command(text: Seq<char>) -> (Seq<char>, Seq<char>)
    decreases text.len(),
{
    if text.len() == 0 {
        (text, text)
    } else if text[0] == ' ' {
        (Seq::empty(), text.drop_first())
    } else {
        let rest = split_command(text.drop_first());
        (seq![text[0]] + rest.0, rest.1)
    }
}

/// The reply to a command that carries an unexpected payload.
pub open spec fn unexpected_payload_reply(payload: Seq<char>) -> Seq<char> {
    "ERROR Unexpected payload for command PING: "@ + payload
}

/// What the relay does with a command and its payload, given how many
/// subscribers are connected.
pub open spec fn command_response(command: Seq<char>, payload: Seq<char>, subscriber_count: nat) -> Response {
    if command == "DATA"@ {
        if payload.len() == 0 {
            Response::Reply("ERROR Empty payload received after a DATA command which is not valid."@)
        } else {
            Response::Publish(payload)
        }
    } else if command == "GET_SUBSCRIBER_COUNT"@ {
        if payload.len() > 0 {
            Response::Reply(unexpected_payload_reply(payload))
        } else {
            Response::Reply("SUBSCRIBER_COUNT "@ + decimal(subscriber_count))
        }
    } else if command == "PING"@ {
        if payload.len() > 0 {
            Response::Reply(unexpected_payload_reply(payload))
        } else {
            Response::Reply("PONG"@)
        }
    } else if command == "SUBSCRIBER_COUNT"@ || command == "ERROR"@ || command == "PONG"@ {
        Response::Reply("ERROR Client not allowed to send command "@ + command)
    } else {
        Response::Reply("ERROR Unexpected protocol command: "@ + command)
    }
}

/// What the relay does with a datagram whose text is `text`.
pub open spec fn text_response(text: Seq<char>, subscriber_count: nat) -> Response {
    command_response(split_command(text).0, split_command(text).1, subscriber_count)
}

/// The reply to a datagram that is not UTF-8.
pub open spec fn invalid_utf8_reply(valid_up_to: nat, error_len: Option<usize>) -> Seq<char> {
    "ERROR Invalid utf8 bytes. Error details: "@ + utf8_fault_description(valid_up_to, error_len)
}

/// What the relay does with a datagram of these bytes.
pub open spec fn datagram_response(bytes: Seq<u8>, subscriber_count: nat) -> Response {
    if valid_utf8(bytes) {
        text_response(decode_utf8(bytes), subscriber_count)
    } else {
        Response::Reply(
            invalid_utf8_reply(longest_valid_prefix(bytes) as nat, utf8_error_len(bytes)),
        )
    }
}

/// A command followed by a space and a payload splits into that command and payload.
pub proof fn lemma_split_command_at_space(command: Seq<char>, payload: Seq<char>)
    requires
        space_free(command),
    ensures
        split_command(command + seq![' '] + payload) == (command, payload),
    decreases command.len(),
{
    let text = command + seq![' '] + payload;
    if command.len() == 0 {
        assert(text =~= seq![' '] + payload);
        assert(text.drop_first() =~= payload);
    } else {
        let tail = command.drop_first();
        assert(text.drop_first() =~= tail + seq![' '] + payload);
        lemma_split_command_at_space(tail, payload);
        assert(seq![command[0]] + tail =~= command);
    }
}

/// A text without a space is a command without a payload.
pub proof fn lemma_split_command_without_space(text: Seq<char>)
    requires
        space_free(text),
    ensures
        split_command(text) == (text, Seq::<char>::empty()),
    decreases text.len(),
{
    if text.len() > 0 {
        lemma_split_command_without_space(text.drop_first());
        assert(seq![text[0]] + text.drop_first() =~= text);
    }
}

/// Every text is its command, followed, when it has a payload or ends in a
/// space, by a space and that payload; the command holds no space.
pub proof fn lemma_split_command_reassembles(text: Seq<char>)
    ensures
        space_free(split_command(text).0),
        text == split_command(text).0 + seq![' '] + split_command(text).1 || (text
            == split_command(text).0 && split_command(text).1.len() == 0),
    decreases text.len(),
{
    if text.len() > 0 && text[0] != ' ' {
        let tail = text.drop_first();
        lemma_split_command_reassembles(tail);
        let (c, p) = split_command(tail);
        assert(split_command(text).0 == seq![text[0]] + c);
        assert(text =~= seq![text[0]] + tail);
        if tail == c + seq![' '] + p {
            assert(seq![text[0]] + (c + seq![' '] + p) =~= seq![text[0]] + c + seq![' '] + p);
        } else {
            assert(text =~= seq![text[0]] + c);
        }
    } else if text.len() > 0 {
        assert(text =~= Seq::<char>::empty() + seq![' '] + text.drop_first());
    }
}

/// Valid UTF-8 without the space byte decodes to text without a space.
proof fn lemma_decode_without_space_byte(bytes: Seq<u8>)
    requires
        valid_utf8(bytes),
        forall|j: int| 0 <= j < bytes.len() ==> bytes[j] != 32,
    ensures
        space_free(decode_utf8(bytes)),
    decreases bytes.len(),
{
    if bytes.len() > 0 {
        let b0 = bytes[0];
        let first = decode_first_scalar(bytes);
        if is_leading_byte_width_1(b0) {
            assert(b0 & 0x7f == b0) by (bit_vector)
                requires
                    b0 <= 0x7f,
            ;
            assert(first == b0 as u32);
        }
        assert(first != 32);
        if (first as char) == ' ' {
            decode_utf8_first_scalar(bytes);
            assert((32u32 & 0x7fu32) as u8 == 32u8) by (bit_vector);
            assert(encode_scalar(32u32) =~= seq![32u8]);
            assert(take_first_scalar(bytes)[0] == bytes[0]);
        }
        let rest = pop_first_scalar(bytes);
        assert forall|j: int| 0 <= j < rest.len() implies rest[j] != 32 by {
            assert(rest[j] == bytes[j + length_of_first_scalar(bytes)]);
        }
        lemma_decode_without_space_byte(rest);
        let chars = decode_utf8(bytes);
        assert(chars == seq![first as char] + decode_utf8(rest));
        assert forall|i: int| 0 <= i < chars.len() implies chars[i] != ' ' by {
            if i > 0 {
                assert(chars[i] == decode_utf8(rest)[i - 1]);
            }
        }
    }
}

/// Valid UTF-8 that starts with the space byte decodes to a space followed
/// by the decoding of the remaining bytes, which are valid UTF-8.
proof fn lemma_decode_leading_space_byte(bytes: Seq<u8>)
    requires
        valid_utf8(bytes),
        bytes.len() > 0,
        bytes[0] == 32,
    ensures
        valid_utf8(bytes.drop_first()),
        decode_utf8(bytes) == seq![' '] + decode_utf8(bytes.drop_first()),
{
    let b0 = bytes[0];
    assert(b0 & 0x7f == b0) by (bit_vector)
        requires
            b0 <= 0x7f,
    ;
    assert(pop_first_scalar(bytes) =~= bytes.drop_first());
}

/// Index of the first space byte in `bytes`, if any.
fn find_space_byte(bytes: &[u8]) -> (found: Option<usize>)
    ensures
        found matches Some(i) ==> i < bytes@.len() && bytes@[i as int] == 32 && forall|j: int|
            0 <= j < i ==> bytes@[j] != 32,
        found is None ==> forall|j: int| 0 <= j < bytes@.len() ==> bytes@[j] != 32,
{
    let n = bytes.len();
    for i in 0..n
        invariant
            n == bytes@.len(),
            forall|j: int| 0 <= j < i ==> bytes@[j] != 32,
    {
        if bytes[i] == 32 {
            return Some(i);
        }
    }
    None
}

/// Whether a string holds exactly the text of `word`.
fn is_word(text: &str, word: &str) -> (same: bool)
    ensures
        same == (text@ == word@),
{
    let same = bytes_equal(text.as_bytes(), word.as_bytes());
    proof {
        broadcast use vstd::utf8::group_utf8_lib;

        if same {
            assert(decode_utf8(encode_utf8(text@)) == decode_utf8(encode_utf8(word@)));
        }
    }
    same
}

/// A string with the given text.
fn string_of(text: &str) -> (s: String)
    ensures
        s@ == text@,
{
    String::from_str(text)
}

/// Decides what the relay does with a command and its payload.
pub fn respond_to_command(command: &str, payload: &str, subscriber_count: usize) -> (outcome:
    PublisherOutcome)
    ensures
        outcome@ == command_response(command@, payload@, subscriber_count as nat),
{
    let payload_is_empty = payload.is_empty();
    if is_word(command, "DATA") {
        if payload_is_empty {
            PublisherOutcome::Reply(
                string_of("ERROR Empty payload received after a DATA command which is not valid."),
            )
        } else {
            PublisherOutcome::Publish(PublisherMessage { payload: string_of(payload) })
        }
    } else if is_word(command, "GET_SUBSCRIBER_COUNT") {
        if !payload_is_empty {
            let mut reply = string_of("ERROR Unexpected payload for command PING: ");
            reply.append(payload);
            PublisherOutcome::Reply(reply)
        } else {
            let mut reply = string_of("SUBSCRIBER_COUNT ");
            push_decimal(&mut reply, subscriber_count);
            PublisherOutcome::Reply(reply)
        }
    } else if is_word(command, "PING") {
        if !payload_is_empty {
            let mut reply = string_of("ERROR Unexpected payload for command PING: ");
            reply.append(payload);
            PublisherOutcome::Reply(reply)
        } else {
            PublisherOutcome::Reply(string_of("PONG"))
        }
    } else if is_word(command, "SUBSCRIBER_COUNT") || is_word(command, "ERROR") || is_word(
        command,
        "PONG",
    ) {
        let mut reply = string_of("ERROR Client not allowed to send command ");
        reply.append(command);
        PublisherOutcome::Reply(reply)
    } else {
        let mut reply = string_of("ERROR Unexpected protocol command: ");
        reply.append(command);
        PublisherOutcome::Reply(reply)
    }
}

/// Decides what the relay does with a datagram whose text is `text`.
pub fn respond_to_text(text: &str, subscriber_count: usize) -> (outcome: PublisherOutcome)
    ensures
        outcome@ == text_response(text@, subscriber_count as nat),
{
    let bytes = text.as_bytes();
    proof {
        broadcast use vstd::utf8::group_utf8_lib;

        assert(valid_utf8(bytes@));
        assert(decode_utf8(bytes@) == text@);
    }
    match find_space_byte(bytes) {
        Some(i) => {
            proof {
                broadcast use vstd::utf8::group_utf8_lib;

                assert(!is_continuation_byte(bytes@[i as int]));
                assert(is_char_boundary(bytes@, i as int));
            }
            let (command, rest) = text.split_at(i);
            proof {
                broadcast use vstd::utf8::group_utf8_lib;

                let b = bytes@;
                let tail = b.subrange(i as int, b.len() as int);
                assert(valid_utf8(tail));
                assert(tail[0] == 32);
                lemma_decode_leading_space_byte(tail);
                reveal_with_fuel(is_char_boundary, 2);
                assert(pop_first_scalar(tail) =~= tail.drop_first());
                assert(is_char_boundary(rest.spec_bytes(), 1));
            }
            let (_space, payload) = rest.split_at(1);
            proof {
                broadcast use vstd::utf8::group_utf8_lib;

                let b = bytes@;
                let head = b.subrange(0, i as int);
                let tail = b.subrange(i as int, b.len() as int);
                assert(valid_utf8(head));
                assert forall|j: int| 0 <= j < head.len() implies head[j] != 32 by {
                    assert(head[j] == b[j]);
                }
                lemma_decode_without_space_byte(head);
                assert(command@ == decode_utf8(head));
                lemma_decode_leading_space_byte(tail);
                assert(tail.drop_first() =~= payload.spec_bytes());
                assert(payload@ == decode_utf8(tail.drop_first()));
                decode_utf8_split(b, i as int);
                assert(text@ == command@ + seq![' '] + payload@);
                lemma_split_command_at_space(command@, payload@);
            }
            respond_to_command(command, payload, subscriber_count)
        },
        None => {
            proof {
                reveal_strlit("");
                lemma_decode_without_space_byte(bytes@);
                lemma_split_command_without_space(text@);
            }
            respond_to_command(text, "", subscriber_count)
        },
    }
}

/// The reply to a datagram that is not UTF-8, given the fault that decoding reported.
pub fn respond_to_invalid_utf8(fault: &Utf8Fault) -> (reply: String)
    ensures
        reply@ == invalid_utf8_reply(fault.valid_up_to as nat, fault.error_len),
{
    let mut reply = string_of("ERROR Invalid utf8 bytes. Error details: ");
    let details = describe_utf8_fault(fault);
    reply.append(details.as_str());
    reply
}

/// Decides what the relay does with one datagram from a publisher, given how
/// many subscribers are connected.
pub fn respond_to_datagram(received_bytes: &[u8], subscriber_count: usize) -> (outcome:
    PublisherOutcome)
    ensures
        outcome@ == datagram_response(received_bytes@, subscriber_count as nat),
{
    match str_from_utf8(received_bytes) {
        Ok(text) => {
            proof {
                broadcast use vstd::utf8::group_utf8_lib;

                assert(decode_utf8(encode_utf8(text@)) == text@);
            }
            respond_to_text(text, subscriber_count)
        },
        Err(fault) => {
            proof {
                lemma_longest_valid_prefix_unique(received_bytes@, fault.valid_up_to as int);
            }
            PublisherOutcome::Reply(respond_to_invalid_utf8(&fault))
        },
    }
}

/// A datagram that reads `DATA `, followed by a non-empty payload, publishes
/// that payload.
pub proof fn lemma_data_datagram_publishes(payload: Seq<char>, subscriber_count: nat)
    requires
        payload.len() > 0,
    ensures
        datagram_response(encode_utf8("DATA "@ + payload), subscriber_count) == Response::Publish(
            payload,
        ),
{
    broadcast use vstd::utf8::group_utf8_lib;

    reveal_strlit("DATA ");
    reveal_strlit("DATA");
    let text = "DATA "@ + payload;
    assert(text =~= "DATA"@ + seq![' '] + payload);
    lemma_split_command_at_space("DATA"@, payload);
}

/// Only a datagram that reads `DATA `, followed by a non-empty payload, is
/// published, and what is published is that payload.
pub proof fn lemma_only_data_publishes(bytes: Seq<u8>, subscriber_count: nat)
    requires
        datagram_response(bytes, subscriber_count) is Publish,
    ensures
        ({
            let payload = datagram_response(bytes, subscriber_count)->Publish_0;
            &&& payload.len() > 0
            &&& bytes == encode_utf8("DATA "@ + payload)
        }),
{
    broadcast use vstd::utf8::group_utf8_lib;

    reveal_strlit("DATA ");
    reveal_strlit("DATA");
    let text = decode_utf8(bytes);
    lemma_split_command_reassembles(text);
    let (c, p) = split_command(text);
    assert(c == "DATA"@);
    assert(text =~= "DATA "@ + p);
}

/// Whether a reply reports an error.
pub open spec fn is_error_reply(reply: Seq<char>) -> bool {
    "ERROR "@.is_prefix_of(reply)
}

/// Every reply reports an error, except the answers to `PING` and to
/// `GET_SUBSCRIBER_COUNT`.
pub proof fn lemma_replies_are_errors_or_answers(bytes: Seq<u8>, subscriber_count: nat)
    ensures
        datagram_response(bytes, subscriber_count) matches Response::Reply(reply) ==> {
            ||| is_error_reply(reply)
            ||| reply == "PONG"@
            ||| reply == "SUBSCRIBER_COUNT "@ + decimal(subscriber_count)
        },
{
    reveal_strlit("ERROR ");
    reveal_strlit("ERROR Invalid utf8 bytes. Error details: ");
    reveal_strlit("ERROR Empty payload received after a DATA command which is not valid.");
    reveal_strlit("ERROR Unexpected payload for command PING: ");
    reveal_strlit("ERROR Client not allowed to send command ");
    reveal_strlit("ERROR Unexpected protocol command: ");
    let prefix = "ERROR "@;
    assert forall|rest: Seq<char>| #[trigger] is_error_reply("ERROR Invalid utf8 bytes. Error details: "@ + rest) by {
        assert(("ERROR Invalid utf8 bytes. Error details: "@ + rest).take(6) =~= prefix);
    }
    assert forall|rest: Seq<char>| #[trigger] is_error_reply("ERROR Unexpected payload for command PING: "@ + rest) by {
        assert(("ERROR Unexpected payload for command PING: "@ + rest).take(6) =~= prefix);
    }
    assert forall|rest: Seq<char>| #[trigger] is_error_reply("ERROR Client not allowed to send command "@ + rest) by {
        assert(("ERROR Client not allowed to send command "@ + rest).take(6) =~= prefix);
    }
    assert forall|rest: Seq<char>| #[trigger] is_error_reply("ERROR Unexpected protocol command: "@ + rest) by {
        assert(("ERROR Unexpected protocol command: "@ + rest).take(6) =~= prefix);
    }
    assert(is_error_reply("ERROR Empty payload received after a DATA command which is not valid."@)) by {
        assert("ERROR Empty payload received after a DATA command which is not valid."@.take(6) =~= prefix);
    }
}

/// The UTF-8 datagram that carries `text`, decoded back, is `text`.
proof fn lemma_datagram_text(text: Seq<char>)
    ensures
        valid_utf8(encode_utf8(text)),
        decode_utf8(encode_utf8(text)) == text,
{
    broadcast use vstd::utf8::group_utf8_lib;

}

/// The datagram `GET_SUBSCRIBER_COUNT`, whatever the count, is answered with
/// `SUBSCRIBER_COUNT ` followed by the count in decimal digits, without
/// leading zeros, that read back as the count; nothing is published.
pub proof fn lemma_count_request_reports_count(subscriber_count: nat)
    ensures
        datagram_response(encode_utf8("GET_SUBSCRIBER_COUNT"@), subscriber_count) matches Response::Reply(reply) && {
            let digits = reply.skip(17);
            &&& reply.take(17) == "SUBSCRIBER_COUNT "@
            &&& digits.len() > 0
            &&& all_digits(digits)
            &&& (digits[0] == '0' ==> digits.len() == 1)
            &&& decimal_value(digits) == subscriber_count
        },
{
    reveal_strlit("GET_SUBSCRIBER_COUNT");
    reveal_strlit("SUBSCRIBER_COUNT ");
    reveal_strlit("DATA");
    let text = "GET_SUBSCRIBER_COUNT"@;
    lemma_datagram_text(text);
    assert(space_free(text));
    lemma_split_command_without_space(text);
    assert(text.len() != "DATA"@.len());
    lemma_decimal_reads_back(subscriber_count);
    let reply = "SUBSCRIBER_COUNT "@ + decimal(subscriber_count);
    assert(reply.take(17) =~= "SUBSCRIBER_COUNT "@);
    assert(reply.skip(17) =~= decimal(subscriber_count));
    if decimal(subscriber_count)[0] == '0' {
        assert(subscriber_count == 0);
    }
}

/// The datagram `PING`, whatever the count, is answered with exactly `PONG`.
pub proof fn lemma_ping_is_answered_with_pong(subscriber_count: nat)
    ensures
        datagram_response(encode_utf8("PING"@), subscriber_count) == Response::Reply("PONG"@),
{
    reveal_strlit("PING");
    reveal_strlit("DATA");
    reveal_strlit("GET_SUBSCRIBER_COUNT");
    let text = "PING"@;
    lemma_datagram_text(text);
    assert(space_free(text));
    lemma_split_command_without_space(text);
    assert(text[0] != "DATA"@[0]);
    assert(text.len() != "GET_SUBSCRIBER_COUNT"@.len());
}

/// The datagrams `DATA` and `DATA ` carry no payload: whatever the count,
/// they are refused with an error reply and publish nothing.
pub proof fn lemma_data_without_payload_is_refused(subscriber_count: nat)
    ensures
        datagram_response(encode_utf8("DATA"@), subscriber_count) == Response::Reply(
            "ERROR Empty payload received after a DATA command which is not valid."@,
        ),
        datagram_response(encode_utf8("DATA "@), subscriber_count) == Response::Reply(
            "ERROR Empty payload received after a DATA command which is not valid."@,
        ),
        is_error_reply("ERROR Empty payload received after a DATA command which is not valid."@),
{
    reveal_strlit("DATA");
    reveal_strlit("DATA ");
    reveal_strlit("ERROR ");
    reveal_strlit("ERROR Empty payload received after a DATA command which is not valid.");
    let text = "DATA"@;
    lemma_datagram_text(text);
    assert(space_free(text));
    lemma_split_command_without_space(text);
    let spaced = "DATA "@;
    lemma_datagram_text(spaced);
    assert(spaced =~= text + seq![' '] + Seq::<char>::empty());
    lemma_split_command_at_space(text, Seq::<char>::empty());
    assert("ERROR Empty payload received after a DATA command which is not valid."@.take(6)
        =~= "ERROR "@);
}

/// Whether a command is one the protocol knows.
pub open spec fn is_known_command(command: Seq<char>) -> bool {
    ||| command == "DATA"@
    ||| command == "GET_SUBSCRIBER_COUNT"@
    ||| command == "PING"@
    ||| command == "SUBSCRIBER_COUNT"@
    ||| command == "ERROR"@
    ||| command == "PONG"@
}

/// A datagram whose command (the text before the first space) is not one the
/// protocol knows is refused, whatever follows and whatever the count, with
/// `ERROR Unexpected protocol command: ` followed by that command.
pub proof fn lemma_unknown_command_is_refused(
    command: Seq<char>,
    payload: Seq<char>,
    subscriber_count: nat,
)
    requires
        space_free(command),
        !is_known_command(command),
    ensures
        datagram_response(encode_utf8(command + seq![' '] + payload), subscriber_count)
            == Response::Reply("ERROR Unexpected protocol command: "@ + command),
        datagram_response(encode_utf8(command), subscriber_count) == Response::Reply(
            "ERROR Unexpected protocol command: "@ + command,
        ),
        is_error_reply("ERROR Unexpected protocol command: "@ + command),
{
    reveal_strlit("ERROR ");
    reveal_strlit("ERROR Unexpected protocol command: ");
    lemma_datagram_text(command + seq![' '] + payload);
    lemma_split_command_at_space(command, payload);
    lemma_datagram_text(command);
    lemma_split_command_without_space(command);
    assert(("ERROR Unexpected protocol command: "@ + command).take(6) =~= "ERROR "@);
}

} // verus!
