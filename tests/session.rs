use ipv6_canvas::canvas::{EncodedCanvas, CANVAS_PIXELS};
use ipv6_canvas::websocket_handler::{Session, SessionAction, SessionEvent, Topic, WsRequest};

#[test]
fn new_session_follows_nothing() {
    let mut s = Session::new();
    for t in [Topic::DeltaCanvas, Topic::Pps, Topic::WsCount, Topic::Nudity] {
        assert!(!s.is_subscribed(t));
        assert_eq!(s.step(SessionEvent::TopicItem(t)), SessionAction::Ignore);
        assert_eq!(s.step(SessionEvent::TopicLagged(t)), SessionAction::Ignore);
        assert_eq!(s.step(SessionEvent::TopicClosed(t)), SessionAction::Ignore);
    }
}

#[test]
fn subscriptions_toggle_forwarding() {
    let mut s = Session::new();
    assert_eq!(s.step(SessionEvent::Request(WsRequest::PpsUpdates { enabled: true })), SessionAction::Ignore);
    assert!(s.is_subscribed(Topic::Pps));
    assert_eq!(s.step(SessionEvent::TopicItem(Topic::Pps)), SessionAction::Forward(Topic::Pps));
    assert_eq!(s.step(SessionEvent::TopicItem(Topic::DeltaCanvas)), SessionAction::Ignore);
    s.step(SessionEvent::Request(WsRequest::DeltaCanvasStream { enabled: true }));
    s.step(SessionEvent::Request(WsRequest::WsCountUpdates { enabled: true }));
    s.step(SessionEvent::Request(WsRequest::NudityUpdates { enabled: true }));
    for t in [Topic::DeltaCanvas, Topic::Pps, Topic::WsCount, Topic::Nudity] {
        assert_eq!(s.step(SessionEvent::TopicItem(t)), SessionAction::Forward(t));
    }
    s.step(SessionEvent::Request(WsRequest::PpsUpdates { enabled: false }));
    assert!(!s.is_subscribed(Topic::Pps));
    assert!(s.is_subscribed(Topic::Nudity));
    assert_eq!(s.step(SessionEvent::TopicLagged(Topic::Nudity)), SessionAction::Ignore);
    assert!(s.is_subscribed(Topic::Nudity));
    assert_eq!(s.step(SessionEvent::TopicItem(Topic::Nudity)), SessionAction::Forward(Topic::Nudity));
    assert_eq!(s.step(SessionEvent::TopicClosed(Topic::Nudity)), SessionAction::Fail);
}

#[test]
fn one_off_requests_and_termination() {
    let mut s = Session::new();
    assert_eq!(s.step(SessionEvent::Request(WsRequest::GetFullCanvasOnce)), SessionAction::SendFullCanvas);
    assert_eq!(s.step(SessionEvent::Request(WsRequest::GetWsCountUpdateOnce)), SessionAction::SendWsCount);
    assert_eq!(s.step(SessionEvent::Request(WsRequest::GetNudityUpdateOnce)), SessionAction::SendNudity);
    assert_eq!(s.step(SessionEvent::OtherClientFrame), SessionAction::Ignore);
    assert_eq!(s.step(SessionEvent::UndecodableRequest), SessionAction::Fail);
    assert_eq!(s.step(SessionEvent::ClientError), SessionAction::Fail);
    assert_eq!(s.step(SessionEvent::ClientClosed), SessionAction::Close);
}

#[test]
fn scenario_five_sessions_get_identical_full_canvas() {
    let white = vec![0xffu8; CANVAS_PIXELS * 3];
    let current = EncodedCanvas::new(&white, false).expect("png");
    let served = current.get_encoded();
    let mut frames = Vec::new();
    for _ in 0..5 {
        let mut s = Session::new();
        match s.step(SessionEvent::Request(WsRequest::GetFullCanvasOnce)) {
            SessionAction::SendFullCanvas => frames.push(current.get_encoded()),
            other => panic!("unexpected action {:?}", other),
        }
    }
    assert_eq!(frames.len(), 5);
    for f in &frames {
        assert_eq!(f, &served);
    }
}
