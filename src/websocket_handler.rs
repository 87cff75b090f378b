//! The client session: which topics a client follows, and what to do on
//! each event of its connection.
use vstd::prelude::*;

verus! {

/// A control request from the client.
#[derive(Debug, Clone, Copy, PartialEq, Eq)]
pub enum WsRequest {
    GetFullCanvasOnce,
    DeltaCanvasStream { enabled: bool },
    PpsUpdates { enabled: bool },
    WsCountUpdates { enabled: bool },
    GetWsCountUpdateOnce,
    NudityUpdates { enabled: bool },
    GetNudityUpdateOnce,
}

/// A topic that a session can follow.
#[derive(Debug, Clone, Copy, PartialEq, Eq)]
pub enum Topic {
    DeltaCanvas,
    Pps,
    WsCount,
    Nudity,
}

/// What happened on a session's connection.
#[derive(Debug, Clone, Copy, PartialEq, Eq)]
pub enum SessionEvent {
    /// A text frame that decoded as a request.
    Request(WsRequest),
    /// A text frame that did not decode as a request.
    UndecodableRequest,
    /// A frame of another kind from the client.
    OtherClientFrame,
    /// The client ended the stream.
    ClientClosed,
    /// Receiving from the client failed.
    ClientError,
    /// An item arrived on a topic.
    TopicItem(Topic),
    /// A topic receiver fell behind; the items it missed are dropped.
    TopicLagged(Topic),
    /// A topic channel was closed.
    TopicClosed(Topic),
}

/// What the session does next.
#[derive(Debug, Clone, Copy, PartialEq, Eq)]
pub enum SessionAction {
    /// Nothing to send.
    Ignore,
    /// Send the item that arrived on the topic.
    Forward(Topic),
    /// Send the current full canvas PNG as one binary frame.
    SendFullCanvas,
    /// Send the current connection count as one text frame.
    SendWsCount,
    /// Send the current classifier result as one text frame.
    SendNudity,
    /// End the session cleanly.
    Close,
    /// End the session with an error.
    Fail,
}

/// The subscription flags of one client session.
#[derive(Debug, Clone, Copy, PartialEq, Eq)]
pub struct Session {
    delta_canvas_stream_enabled: bool,
    pps_updates_enabled: bool,
    ws_count_updates_enabled: bool,
    nudity_updates_enabled: bool,
}

impl Session {
    /// Whether the session follows `topic`.
    pub closed spec fn subscribed(self, topic: Topic) -> bool {
        match topic {
            Topic::DeltaCanvas => self.delta_canvas_stream_enabled,
            Topic::Pps => self.pps_updates_enabled,
            Topic::WsCount => self.ws_count_updates_enabled,
            Topic::Nudity => self.nudity_updates_enabled,
        }
    }

    /// A new session follows no topic.
    pub fn new() -> (r: Self)
        ensures
            forall|t: Topic| !(#[trigger] r.subscribed(t)),
    {
        Session {
            delta_canvas_stream_enabled: false,
            pps_updates_enabled: false,
            ws_count_updates_enabled: false,
            nudity_updates_enabled: false,
        }
    }

    /// Whether the session follows `topic`.
    pub fn is_subscribed(&self, topic: Topic) -> (r: bool)
        ensures
            r == self.subscribed(topic),
    {
        match topic {
            Topic::DeltaCanvas => self.delta_canvas_stream_enabled,
            Topic::Pps => self.pps_updates_enabled,
            Topic::WsCount => self.ws_count_updates_enabled,
            Topic::Nudity => self.nudity_updates_enabled,
        }
    }

    /// Handle one event: requests set flags or ask for a one-off frame,
    /// topic items are forwarded only when followed, a lagged topic is passed
    /// over, and the session ends on a close, on a client error or
    /// undecodable request, and on the closing of a topic that it follows.
    pub fn step(&mut self, event: SessionEvent) -> (r: SessionAction)
        ensures
            forall|t: Topic| #[trigger] final(self).subscribed(t) == match event {
                SessionEvent::Request(WsRequest::DeltaCanvasStream { enabled }) => if t
                    == Topic::DeltaCanvas {
                    enabled
                } else {
                    old(self).subscribed(t)
                },
                SessionEvent::Request(WsRequest::PpsUpdates { enabled }) => if t == Topic::Pps {
                    enabled
                } else {
                    old(self).subscribed(t)
                },
                SessionEvent::Request(WsRequest::WsCountUpdates { enabled }) => if t
                    == Topic::WsCount {
                    enabled
                } else {
                    old(self).subscribed(t)
                },
                SessionEvent::Request(WsRequest::NudityUpdates { enabled }) => if t
                    == Topic::Nudity {
                    enabled
                } else {
                    old(self).subscribed(t)
                },
                _ => old(self).subscribed(t),
            },
            r == match event {
                SessionEvent::Request(WsRequest::GetFullCanvasOnce) => SessionAction::SendFullCanvas,
                SessionEvent::Request(WsRequest::GetWsCountUpdateOnce) => SessionAction::SendWsCount,
                SessionEvent::Request(WsRequest::GetNudityUpdateOnce) => SessionAction::SendNudity,
                SessionEvent::Request(_) => SessionAction::Ignore,
                SessionEvent::UndecodableRequest => SessionAction::Fail,
                SessionEvent::OtherClientFrame => SessionAction::Ignore,
                SessionEvent::ClientClosed => SessionAction::Close,
                SessionEvent::ClientError => SessionAction::Fail,
                SessionEvent::TopicItem(t) => if old(self).subscribed(t) {
                    SessionAction::Forward(t)
                } else {
                    SessionAction::Ignore
                },
                SessionEvent::TopicLagged(_) => SessionAction::Ignore,
                SessionEvent::TopicClosed(t) => if old(self).subscribed(t) {
                    SessionAction::Fail
                } else {
                    SessionAction::Ignore
                },
            },
    {
        match event {
            SessionEvent::Request(request) => match request {
                WsRequest::GetFullCanvasOnce => SessionAction::SendFullCanvas,
                WsRequest::DeltaCanvasStream { enabled } => {
                    self.delta_canvas_stream_enabled = enabled;
                    SessionAction::Ignore
                },
                WsRequest::PpsUpdates { enabled } => {
                    self.pps_updates_enabled = enabled;
                    SessionAction::Ignore
                },
                WsRequest::WsCountUpdates { enabled } => {
                    self.ws_count_updates_enabled = enabled;
                    SessionAction::Ignore
                },
                WsRequest::GetWsCountUpdateOnce => SessionAction::SendWsCount,
                WsRequest::NudityUpdates { enabled } => {
                    self.nudity_updates_enabled = enabled;
                    SessionAction::Ignore
                },
                WsRequest::GetNudityUpdateOnce => SessionAction::SendNudity,
            },
            SessionEvent::UndecodableRequest => SessionAction::Fail,
            SessionEvent::OtherClientFrame => SessionAction::Ignore,
            SessionEvent::ClientClosed => SessionAction::Close,
            SessionEvent::ClientError => SessionAction::Fail,
            SessionEvent::TopicItem(t) => {
                if self.is_subscribed(t) {
                    SessionAction::Forward(t)
                } else {
                    SessionAction::Ignore
                }
            },
            SessionEvent::TopicLagged(_) => SessionAction::Ignore,
            SessionEvent::TopicClosed(t) => {
                if self.is_subscribed(t) {
                    SessionAction::Fail
                } else {
                    SessionAction::Ignore
                }
            },
        }
    }
}

} // verus!
