//! Connections: pushers, viewers over SSH, and what each event asks for.
use shellglass::client::{
    check_register, classify_failure, classify_status, font_prefix, next_step, push_url, session_step, Action,
    Attempt, Event, Next, MAX_MISSED_PONGS,
};
use shellglass::diff::{Live, WireMsg};
use shellglass::hub::HubState;
use shellglass::model::{Frame, Grid, ImagePlacement};
use shellglass::proto::{content_key, session_id, BlobBody, RegisterBody, MAX_WS_MESSAGE};
use shellglass::record::{blob_messages, frame_blobs, Blob};
use shellglass::registry::parse_allow;
use shellglass::requests::{is_blob, push_step, reject_line, too_long_reason, PushAction, PushEvent};
use shellglass::ssh::{quits, shell_reply, Ctl, ShellReply, Target, ViewEvent, ViewLoop};

#[test]
fn addresses_are_made_from_a_base() {
    assert_eq!(push_url("https://h//"), "https://h/push");
    assert_eq!(font_prefix("abc"), "/s/abc/fonts/");
}

#[test]
fn a_register_message_over_the_limit_is_refused() {
    assert_eq!(check_register(MAX_WS_MESSAGE), None);
    let t = check_register(MAX_WS_MESSAGE + 1).unwrap();
    assert!(t.starts_with("register payload is 64 MiB, over the hub's 64 MiB"), "{t}");
    assert_eq!(too_long_reason(), "message exceeds the 64 MiB limit");
}

#[test]
fn statuses_are_told_apart() {
    assert!(matches!(classify_status(101), Attempt::Connected));
    assert!(matches!(classify_status(403), Attempt::Forbidden));
    assert!(matches!(classify_status(502), Attempt::Rejected(502)));
}

#[test]
fn an_outage_is_reported_once() {
    let (down, started, next) = next_step(false, false, Attempt::Unreachable("refused".into()));
    assert!(down);
    match next {
        Next::Retry { report } => {
            assert_eq!(report.unwrap(), "hub unreachable (refused); retrying")
        }
        _ => panic!("retries"),
    }
    assert!(!started);
    let (down, started, next) = next_step(down, started, Attempt::Rejected(502));
    assert!(down && !started && matches!(next, Next::Retry { report: None }));
    // The first connection starts the command, and no later one does.
    let (down, started, next) = next_step(down, started, Attempt::Connected);
    assert!(!down && started);
    assert!(matches!(next, Next::Proceed { recovered: true, start: true }));
    let (_, started, next) = next_step(down, started, Attempt::Connected);
    assert!(started && matches!(next, Next::Proceed { recovered: false, start: false }));
    assert!(matches!(next_step(false, false, Attempt::Forbidden), (false, false, Next::GiveUp)));
    assert!(matches!(classify_failure(101), Attempt::Rejected(101)));
    assert!(matches!(classify_failure(403), Attempt::Forbidden));
}

#[test]
fn a_silent_hub_is_given_up() {
    let mut missed = 0;
    for _ in 0..MAX_MISSED_PONGS {
        let (n, a) = session_step(missed, Event::Tick);
        assert_eq!(a, Action::SendPing);
        missed = n;
    }
    assert_eq!(session_step(missed, Event::Tick).1, Action::EndConnection);
    assert_eq!(session_step(missed, Event::Pong), (0, Action::Nothing));
    assert_eq!(session_step(0, Event::Changed(true)).1, Action::SendDelta);
    assert_eq!(session_step(0, Event::Changed(false)).1, Action::Nothing);
    assert_eq!(session_step(0, Event::LiveEnded).1, Action::EndLive);
    assert_eq!(session_step(0, Event::SendFailed).1, Action::EndConnection);
}

fn reg() -> RegisterBody {
    RegisterBody {
        css: String::new(),
        font_css: String::new(),
        template: String::new(),
        render_cfg: String::new(),
        fonts: vec![],
    }
}

#[test]
fn a_pusher_registers_first() {
    let wire = || WireMsg::Banner { html: "x".into() };
    assert!(matches!(push_step(false, PushEvent::Register(reg())), PushAction::Register(_)));
    assert!(matches!(
        push_step(false, PushEvent::Wire(wire())),
        PushAction::Close { offline: false }
    ));
    assert!(matches!(
        push_step(false, PushEvent::Unreadable),
        PushAction::Close { offline: false }
    ));
    assert!(matches!(push_step(true, PushEvent::Wire(wire())), PushAction::Publish(_)));
    assert!(matches!(push_step(true, PushEvent::Unreadable), PushAction::Nothing));
    let blob = || BlobBody { m: "image/png".into(), d: "QUJD".into() };
    assert!(matches!(push_step(true, PushEvent::Blob(blob())), PushAction::Store(_)));
    assert!(matches!(
        push_step(false, PushEvent::Blob(blob())),
        PushAction::Close { offline: false }
    ));
    assert!(is_blob("{\"blob\":{\"m\":\"image/png\",\"d\":\"\"}}"));
    assert!(!is_blob("{\"t\":\"b\"}"));
    assert!(matches!(push_step(true, PushEvent::Removed), PushAction::Close { offline: false }));
    assert!(matches!(push_step(true, PushEvent::Closed), PushAction::End { offline: true }));
    assert!(matches!(
        push_step(true, PushEvent::TooLong),
        PushAction::CloseTooLong { offline: true }
    ));
    assert!(matches!(push_step(true, PushEvent::Shutdown), PushAction::Close { offline: true }));
}

#[test]
fn rejections_are_logged() {
    let line = reject_line(403, "/push", &Some("1.2.3.4".to_string()), "127.0.0.1:9");
    assert!(line.contains("403") && line.contains("/push") && line.contains("1.2.3.4"), "{line}");
}

#[test]
fn a_viewer_over_ssh_is_shown_its_session() {
    let id = session_id("k");
    let hub = HubState::new(parse_allow(&vec![format!("{id}:demo")]).unwrap(), String::new());
    let t = Target::Hub(hub);
    assert!(t.resolve("demo").is_some());
    assert!(t.resolve("nope").is_none());
    let t = Target::Single(Live::new(Frame::Banner("x".into())));
    assert!(t.resolve("anyone").is_some());
    assert_eq!(shell_reply(false, true, true), ShellReply::NeedsTerminal);
    assert_eq!(shell_reply(true, false, true), ShellReply::UnknownSession);
    assert_eq!(shell_reply(true, true, true), ShellReply::Show);
    assert_eq!(shell_reply(true, true, false), ShellReply::Fail);
}

#[test]
fn a_view_follows_the_frames() {
    let mut size = Ctl::new();
    size.set_size(0, 70000);
    assert_eq!((size.cols, size.rows), (80, 65535));
    size.set_size(20, 5);
    let a = Frame::Banner("one".into());
    let b = Frame::Banner("two".into());
    let mut v = ViewLoop::new();
    assert!(v.repaint(1, &a, size).unwrap().contains("one"));
    assert_eq!(v.repaint(1, &a, size), None, "shown already");
    assert!(v.repaint(2, &b, size).unwrap().contains("two"));
    assert!(v.on(ViewEvent::Resized));
    assert!(v.repaint(2, &b, size).is_some(), "another size paints anew");
    assert!(v.on(ViewEvent::Tick));
    assert!(v.on(ViewEvent::Input(b"abc".to_vec())));
    assert!(!v.on(ViewEvent::Input(b"q".to_vec())));
    assert!(!v.on(ViewEvent::ViewerGone));
    assert!(!v.on(ViewEvent::PublisherGone));
    assert!(quits(&[3]) && quits(&[4]) && !quits(b"qq"));
}

#[test]
fn an_image_is_recorded_once() {
    let blob = |k: &str| Blob { key: k.into(), mime: "image/png".into(), bytes: b"ABC".to_vec() };
    let frame = vec![blob("a"), blob("b"), blob("a")];
    let mut seen = Vec::new();
    let msgs = blob_messages(&frame, &mut seen);
    assert_eq!(msgs.len(), 2);
    assert_eq!(msgs[0], "{\"blob\":{\"m\":\"image/png\",\"d\":\"QUJD\"}}");
    assert!(blob_messages(&frame, &mut seen).is_empty());
}

#[test]
fn the_images_of_a_frame_are_its_blobs() {
    let image = |data: &str| ImagePlacement {
        row: 0,
        col: 0,
        cols: None,
        rows: None,
        mime: "image/png".into(),
        data: std::sync::Arc::new(data.into()),
    };
    let g = Grid {
        cols: 1,
        rows: vec![],
        cursor: None,
        cursor_style: 0,
        images: vec![image("QUJD"), image("!")],
    };
    let blobs = frame_blobs(&Frame::Screen(g));
    assert_eq!(blobs.len(), 1, "what cannot be decoded is left out");
    assert_eq!(blobs[0].bytes, b"ABC");
    assert_eq!(blobs[0].key, content_key("image/png", b"ABC"));
    assert!(frame_blobs(&Frame::Banner("x".into())).is_empty());
}
