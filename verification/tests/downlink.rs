use ws_bridge::downlink::{BackendEvent, Downlink, DownlinkStep};
use ws_bridge::line::{encode_line, next_line_end, read_line, Reading};
use ws_bridge::status::{Fault, Side, Status};

fn read(bytes: &[u8]) -> BackendEvent {
    BackendEvent::Read(bytes.to_vec())
}

#[test]
fn line_becomes_one_text_frame() {
    let mut downlink = Downlink::new();
    assert_eq!(downlink.on_event(&read(b"world\n")), DownlinkStep::Send("world".to_string()));
    assert_eq!(downlink.status(), Status::Running);
}

#[test]
fn exactly_one_newline_is_stripped() {
    let mut downlink = Downlink::new();
    assert_eq!(downlink.on_event(&read(b"\n")), DownlinkStep::Send(String::new()));
    assert_eq!(downlink.on_event(&read(b"a\r\n")), DownlinkStep::Send("a\r".to_string()));
    assert_eq!(downlink.on_event(&read(b"a\n\n")), DownlinkStep::Send("a\n".to_string()));
    assert_eq!(downlink.on_read(b"tab\t \n"), DownlinkStep::Send("tab\t ".to_string()));
}

#[test]
fn line_is_decoded_as_utf8() {
    let mut downlink = Downlink::new();
    assert_eq!(
        downlink.on_event(&read(&[b'h', 0xc3, 0xa9, 0xe2, 0x82, 0xac, 0x0a])),
        DownlinkStep::Send("h\u{e9}\u{20ac}".to_string())
    );
}

#[test]
fn end_of_stream_stops_cleanly() {
    let mut downlink = Downlink::new();
    assert_eq!(downlink.on_event(&read(b"")), DownlinkStep::Halt);
    assert_eq!(downlink.status(), Status::StoppedClean);
}

#[test]
fn unterminated_last_line_is_not_delivered() {
    let mut downlink = Downlink::new();
    assert_eq!(downlink.on_event(&read(b"partial")), DownlinkStep::Halt);
    assert_eq!(downlink.status(), Status::StoppedClean);
}

#[test]
fn malformed_line_stops_with_its_cause() {
    let mut downlink = Downlink::new();
    assert_eq!(downlink.on_event(&read(&[0xff, 0x0a])), DownlinkStep::Halt);
    assert_eq!(downlink.status(), Status::StoppedError(Fault::BackendText));
    assert_eq!(Fault::BackendText.side(), Side::Backend);

    let mut truncated = Downlink::new();
    assert_eq!(truncated.on_event(&read(&[b'a', 0xe2, 0x82, 0x0a])), DownlinkStep::Halt);
    assert_eq!(truncated.status(), Status::StoppedError(Fault::BackendText));
}

#[test]
fn backend_failures_stop_with_their_cause() {
    let mut downlink = Downlink::new();
    assert_eq!(downlink.on_event(&BackendEvent::ReadFailed), DownlinkStep::Halt);
    assert_eq!(downlink.status(), Status::StoppedError(Fault::BackendRead));
    assert_eq!(Fault::BackendRead.side(), Side::Backend);

    let mut sending = Downlink::new();
    assert_eq!(sending.on_event(&read(b"x\n")), DownlinkStep::Send("x".to_string()));
    assert_eq!(sending.on_event(&BackendEvent::SendFailed), DownlinkStep::Halt);
    assert_eq!(sending.status(), Status::StoppedError(Fault::ClientSend));
    assert_eq!(Fault::ClientSend.side(), Side::Client);
}

#[test]
fn stopped_downlink_stays_stopped() {
    let mut downlink = Downlink::new();
    downlink.on_event(&read(b""));
    assert_eq!(downlink.on_event(&read(b"late\n")), DownlinkStep::Halt);
    assert_eq!(downlink.on_event(&BackendEvent::ReadFailed), DownlinkStep::Halt);
    assert_eq!(downlink.on_event(&BackendEvent::SendFailed), DownlinkStep::Halt);
    assert_eq!(downlink.on_read(b"late\n"), DownlinkStep::Halt);
    assert_eq!(downlink.status(), Status::StoppedClean);
}

#[test]
fn lines_are_delivered_in_order_each_once() {
    let mut downlink = Downlink::new();
    let texts = downlink.drain(b"one\ntwo\n\nthree\n");
    assert_eq!(texts, vec!["one".to_string(), "two".to_string(), String::new(), "three".to_string()]);
    assert_eq!(downlink.status(), Status::StoppedClean);
}

#[test]
fn drain_drops_a_final_partial_line() {
    let mut downlink = Downlink::new();
    assert_eq!(downlink.drain(b"one\ntwo"), vec!["one".to_string()]);
    assert_eq!(downlink.status(), Status::StoppedClean);

    let mut only_partial = Downlink::new();
    assert_eq!(only_partial.drain(b"no newline at all"), Vec::<String>::new());
    assert_eq!(only_partial.status(), Status::StoppedClean);
}

#[test]
fn drain_of_an_empty_stream_stops_cleanly() {
    let mut downlink = Downlink::new();
    assert_eq!(downlink.drain(b""), Vec::<String>::new());
    assert_eq!(downlink.status(), Status::StoppedClean);
}

#[test]
fn drain_stops_at_a_malformed_line() {
    let mut downlink = Downlink::new();
    let texts = downlink.drain(&[b'o', b'k', 0x0a, 0xff, 0x0a, b'l', b'a', b't', b'e', 0x0a]);
    assert_eq!(texts, vec!["ok".to_string()]);
    assert_eq!(downlink.status(), Status::StoppedError(Fault::BackendText));
}

#[test]
fn stopped_downlink_drains_nothing() {
    let mut downlink = Downlink::new();
    downlink.on_event(&BackendEvent::ReadFailed);
    assert_eq!(downlink.drain(b"one\n"), Vec::<String>::new());
    assert_eq!(downlink.status(), Status::StoppedError(Fault::BackendRead));
}

#[test]
fn readings_are_told_apart() {
    assert_eq!(read_line(b""), Reading::End);
    assert_eq!(read_line(b"abc"), Reading::Unterminated);
    assert_eq!(read_line(b"abc\n"), Reading::Line("abc".to_string()));
    assert_eq!(read_line(b"\n"), Reading::Line(String::new()));
    assert_eq!(read_line(&[0xc3, 0x0a]), Reading::Malformed);
    assert_eq!(read_line(&[0xc3, 0xa9]), Reading::Unterminated);
    assert_eq!(read_line(&[0xc3, 0xa9, 0x0a]), Reading::Line("\u{e9}".to_string()));
}

#[test]
fn reads_stop_behind_the_first_newline() {
    let stream = b"ab\ncd\n\nef";
    assert_eq!(next_line_end(stream, 0), 3);
    assert_eq!(next_line_end(stream, 1), 3);
    assert_eq!(next_line_end(stream, 2), 3);
    assert_eq!(next_line_end(stream, 3), 6);
    assert_eq!(next_line_end(stream, 6), 7);
    assert_eq!(next_line_end(stream, 7), 9);
    assert_eq!(next_line_end(stream, 9), 9);
    assert_eq!(next_line_end(stream, 10), 9);
    assert_eq!(next_line_end(stream, usize::MAX), 9);
    assert_eq!(next_line_end(b"", 0), 0);
    assert_eq!(next_line_end(b"", 5), 0);
}

#[test]
fn text_without_newline_makes_the_round_trip() {
    for text in ["", "hello", "with space ", "h\u{e9}llo \u{20ac} \u{1f600}", "a\rb\tc"] {
        let line = encode_line(text);
        assert_eq!(read_line(&line), Reading::Line(text.to_string()));
        let mut downlink = Downlink::new();
        assert_eq!(downlink.drain(&line), vec![text.to_string()]);
    }
}

#[test]
fn text_with_newline_is_read_back_as_several_lines() {
    let line = encode_line("a\nb");
    let mut downlink = Downlink::new();
    assert_eq!(downlink.drain(&line), vec!["a".to_string(), "b".to_string()]);
}

#[test]
fn feed_sends_lines_in_order_until_the_end() {
    let mut downlink = Downlink::new();
    let events = vec![read(b"one\n"), read(b"two\n"), read(b""), read(b"three\n")];
    assert_eq!(downlink.feed(&events), vec!["one".to_string(), "two".to_string()]);
    assert_eq!(downlink.status(), Status::StoppedClean);
}

#[test]
fn feed_stops_at_a_failure() {
    let mut downlink = Downlink::new();
    let events = vec![read(b"one\n"), BackendEvent::SendFailed, read(b"two\n")];
    assert_eq!(downlink.feed(&events), vec!["one".to_string()]);
    assert_eq!(downlink.status(), Status::StoppedError(Fault::ClientSend));
    assert_eq!(downlink.feed(&vec![read(b"three\n")]), Vec::<String>::new());
}

#[test]
fn feed_and_drain_agree_on_a_stream() {
    let stream = b"alpha\nbeta\n\ngamma\ndelta";
    let mut reads = Vec::new();
    let mut pos = 0;
    while pos < stream.len() {
        let end = next_line_end(stream, pos);
        reads.push(read(&stream[pos..end]));
        pos = end;
    }
    reads.push(read(b""));
    let mut by_reads = Downlink::new();
    let mut by_stream = Downlink::new();
    assert_eq!(by_reads.feed(&reads), by_stream.drain(stream));
    assert_eq!(by_reads.status(), by_stream.status());
    assert_eq!(by_stream.drain(b"late\n"), Vec::<String>::new());
}
