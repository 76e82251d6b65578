use ws_bridge::frame::Frame;
use ws_bridge::line::encode_line;
use ws_bridge::status::{Fault, Side, Status};
use ws_bridge::uplink::{ClientEvent, Uplink, UplinkStep};

fn text(s: &str) -> ClientEvent {
    ClientEvent::Frame(Frame::Text(s.to_string()))
}

#[test]
fn text_frame_becomes_one_line() {
    let mut uplink = Uplink::new();
    let step = uplink.on_event(&text("hello"));
    assert_eq!(step, UplinkStep::Write(b"hello\n".to_vec()));
    assert_eq!(uplink.status(), Status::Running);
}

#[test]
fn newline_is_appended_even_behind_a_newline() {
    let mut uplink = Uplink::new();
    assert_eq!(uplink.on_event(&text("a\n")), UplinkStep::Write(b"a\n\n".to_vec()));
    assert_eq!(uplink.on_event(&text("")), UplinkStep::Write(b"\n".to_vec()));
}

#[test]
fn text_is_written_as_utf8() {
    let mut uplink = Uplink::new();
    let step = uplink.on_event(&text("h\u{e9}llo \u{20ac} \u{1f600}"));
    let mut expected = "h\u{e9}llo \u{20ac} \u{1f600}".as_bytes().to_vec();
    expected.push(b'\n');
    assert_eq!(step, UplinkStep::Write(expected));
    assert_eq!(
        encode_line("\u{e9}"),
        vec![0xc3, 0xa9, 0x0a]
    );
}

#[test]
fn close_frame_stops_cleanly() {
    let mut uplink = Uplink::new();
    assert_eq!(uplink.on_event(&ClientEvent::Frame(Frame::Close)), UplinkStep::Halt);
    assert_eq!(uplink.status(), Status::StoppedClean);
}

#[test]
fn end_of_messages_stops_cleanly() {
    let mut uplink = Uplink::new();
    assert_eq!(uplink.on_event(&ClientEvent::Ended), UplinkStep::Halt);
    assert_eq!(uplink.status(), Status::StoppedClean);
}

#[test]
fn read_failure_stops_with_its_cause() {
    let mut uplink = Uplink::new();
    assert_eq!(uplink.on_event(&ClientEvent::ReadFailed), UplinkStep::Halt);
    assert_eq!(uplink.status(), Status::StoppedError(Fault::ClientRead));
    assert_eq!(Fault::ClientRead.side(), Side::Client);
}

#[test]
fn write_failure_stops_with_its_cause() {
    let mut uplink = Uplink::new();
    assert_eq!(uplink.on_event(&text("x")), UplinkStep::Write(b"x\n".to_vec()));
    assert_eq!(uplink.on_event(&ClientEvent::WriteFailed), UplinkStep::Halt);
    assert_eq!(uplink.status(), Status::StoppedError(Fault::BackendWrite));
    assert_eq!(Fault::BackendWrite.side(), Side::Backend);
}

#[test]
fn other_frames_write_nothing_and_do_not_stop() {
    let mut uplink = Uplink::new();
    let others = vec![
        Frame::Binary(vec![1, 2, 3]),
        Frame::Binary(b"text\n".to_vec()),
        Frame::Ping(vec![]),
        Frame::Ping(b"hello".to_vec()),
        Frame::Pong(vec![9]),
    ];
    for frame in others {
        assert_eq!(uplink.on_event(&ClientEvent::Frame(frame)), UplinkStep::Continue);
        assert_eq!(uplink.status(), Status::Running);
    }
    assert_eq!(uplink.on_event(&text("after")), UplinkStep::Write(b"after\n".to_vec()));
}

#[test]
fn stopped_uplink_stays_stopped() {
    let mut uplink = Uplink::new();
    uplink.on_event(&ClientEvent::Frame(Frame::Close));
    assert_eq!(uplink.on_event(&text("late")), UplinkStep::Halt);
    assert_eq!(uplink.on_event(&ClientEvent::ReadFailed), UplinkStep::Halt);
    assert_eq!(uplink.on_event(&ClientEvent::Frame(Frame::Ping(vec![]))), UplinkStep::Halt);
    assert_eq!(uplink.status(), Status::StoppedClean);

    let mut failed = Uplink::new();
    failed.on_event(&ClientEvent::ReadFailed);
    assert_eq!(failed.on_event(&ClientEvent::Ended), UplinkStep::Halt);
    assert_eq!(failed.on_event(&ClientEvent::WriteFailed), UplinkStep::Halt);
    assert_eq!(failed.status(), Status::StoppedError(Fault::ClientRead));
}

#[test]
fn texts_are_written_in_order_each_once() {
    let mut uplink = Uplink::new();
    let events = vec![text("one"), text("two"), text(""), text("three")];
    assert_eq!(uplink.feed(&events), b"one\ntwo\n\nthree\n".to_vec());
    assert_eq!(uplink.status(), Status::Running);
}

#[test]
fn feed_skips_other_frames_and_stops_at_close() {
    let mut uplink = Uplink::new();
    let events = vec![
        text("a"),
        ClientEvent::Frame(Frame::Ping(b"p".to_vec())),
        text("b"),
        ClientEvent::Frame(Frame::Binary(b"zzz".to_vec())),
        ClientEvent::Frame(Frame::Close),
        text("c"),
        ClientEvent::ReadFailed,
    ];
    assert_eq!(uplink.feed(&events), b"a\nb\n".to_vec());
    assert_eq!(uplink.status(), Status::StoppedClean);
}

#[test]
fn feed_of_nothing_changes_nothing() {
    let mut uplink = Uplink::new();
    assert_eq!(uplink.feed(&Vec::new()), Vec::<u8>::new());
    assert_eq!(uplink.status(), Status::Running);
    uplink.on_event(&ClientEvent::WriteFailed);
    assert_eq!(uplink.feed(&vec![text("x")]), Vec::<u8>::new());
    assert_eq!(uplink.status(), Status::StoppedError(Fault::BackendWrite));
}

#[test]
fn frame_kinds_are_told_apart() {
    assert!(Frame::Text(String::new()).is_text());
    assert!(!Frame::Text(String::new()).is_close());
    assert!(Frame::Close.is_close());
    assert!(!Frame::Close.is_text());
    assert!(!Frame::Binary(vec![]).is_text());
    assert!(!Frame::Ping(vec![]).is_close());
    assert!(!Frame::Pong(vec![]).is_text());
    assert!(Status::Running.is_running());
    assert!(!Status::StoppedClean.is_running());
    assert!(!Status::StoppedError(Fault::ClientSend).is_running());
}
