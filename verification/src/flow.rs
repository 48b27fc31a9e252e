//! The decisions of the two flows of a subscription.
//!
//! The inbound flow turns each event of the receiver into an action: what to
//! show, or that the flow is over. The outbound flow turns an announcement and
//! each line typed into a payload to broadcast. Waiting, sending and printing
//! are the caller's part.

use vstd::prelude::*;
use vstd::string::StringExecFns;
use crate::identity::{short_form, PeerId};
use crate::message::{
    decode_message, encode_message, lemma_message_round_trip, BodyModel, MalformedMessageError,
    Message, MessageBody, MessageModel,
};
use crate::presence::{display_name_of, Directory};

verus! {

/// What the inbound flow has to tell the user.
#[derive(Clone, Debug, PartialEq, Eq)]
pub enum Notification {
    /// A peer announced the name it goes by.
    NowKnownAs { peer: PeerId, name: String },
    /// A chat line, with the name to show for its sender.
    Chat { name: String, text: String },
    /// A payload was not a message and was dropped.
    ProtocolError { reason: MalformedMessageError },
}

/// Mathematical value of a [`Notification`].
pub enum NotificationModel {
    NowKnownAs { peer: Seq<u8>, name: Seq<char> },
    Chat { name: Seq<char>, text: Seq<char> },
    ProtocolError { reason: MalformedMessageError },
}

impl View for Notification {
    type V = NotificationModel;

    open spec fn view(&self) -> NotificationModel {
        match self {
            Notification::NowKnownAs { peer, name } => NotificationModel::NowKnownAs {
                peer: peer@,
                name: name@,
            },
            Notification::Chat { name, text } => NotificationModel::Chat {
                name: name@,
                text: text@,
            },
            Notification::ProtocolError { reason } => NotificationModel::ProtocolError {
                reason: *reason,
            },
        }
    }
}

/// The line that shows a notification to the user.
pub open spec fn rendered(note: NotificationModel) -> Seq<char> {
    match note {
        NotificationModel::NowKnownAs { peer, name } => "> "@ + short_form(peer)
            + " is now known as "@ + name,
        NotificationModel::Chat { name, text } => name + ": "@ + text,
        NotificationModel::ProtocolError { reason } => "> dropped a payload: "@ + reason.text(),
    }
}

impl Notification {
    /// The line that shows the notification to the user.
    pub fn render(&self) -> (line: String)
        ensures
            line@ == rendered(self@),
    {
        match self {
            Notification::NowKnownAs { peer, name } => {
                let mut line = String::from_str("> ");
                line.append(peer.fmt_short().as_str());
                line.append(" is now known as ");
                line.append(name.as_str());
                line
            },
            Notification::Chat { name, text } => {
                let mut line = name.clone();
                line.append(": ");
                line.append(text.as_str());
                line
            },
            Notification::ProtocolError { reason } => {
                let mut line = String::from_str("> dropped a payload: ");
                line.append(reason.describe());
                line
            },
        }
    }
}

/// The directory after a message with `body` has been taken in.
pub open spec fn names_after(names: Map<Seq<u8>, Seq<char>>, body: BodyModel) -> Map<
    Seq<u8>,
    Seq<char>,
> {
    match body {
        BodyModel::AboutMe { from, name } => names.insert(from, name),
        BodyModel::Chat { .. } => names,
    }
}

/// What to tell the user of a message with `body`, given the names known
/// when it arrives.
pub open spec fn notification_for(
    names: Map<Seq<u8>, Seq<char>>,
    body: BodyModel,
) -> NotificationModel {
    match body {
        BodyModel::AboutMe { from, name } => NotificationModel::NowKnownAs { peer: from, name },
        BodyModel::Chat { from, text } => NotificationModel::Chat {
            name: display_name_of(names, from),
            text,
        },
    }
}

/// The directory after `payload` has been taken in: a payload that is no
/// message changes nothing.
pub open spec fn names_after_payload(names: Map<Seq<u8>, Seq<char>>, payload: Seq<u8>) -> Map<
    Seq<u8>,
    Seq<char>,
> {
    match decode_message(payload) {
        Ok(m) => names_after(names, m.body),
        Err(_) => names,
    }
}

/// What to tell the user of `payload`.
pub open spec fn notification_for_payload(
    names: Map<Seq<u8>, Seq<char>>,
    payload: Seq<u8>,
) -> NotificationModel {
    match decode_message(payload) {
        Ok(m) => notification_for(names, m.body),
        Err(reason) => NotificationModel::ProtocolError { reason },
    }
}

/// Whether `payload` is a message with this body, under whatever nonce.
pub open spec fn carries(payload: Seq<u8>, body: BodyModel) -> bool {
    decode_message(payload) is Ok && decode_message(payload)->Ok_0.body == body
}

impl Directory {
    /// Takes in a decoded message: an announcement is recorded, a chat line
    /// gets the name of its sender.
    pub fn dispatch(&mut self, body: MessageBody) -> (note: Notification)
        ensures
            final(self)@ == names_after(old(self)@, body@),
            note@ == notification_for(old(self)@, body@),
    {
        match body {
            MessageBody::AboutMe { from, name } => {
                self.observe_about_me(from, name.clone());
                Notification::NowKnownAs { peer: from, name }
            },
            MessageBody::Chat { from, text } => {
                let name = self.display_name(&from);
                Notification::Chat { name, text }
            },
        }
    }

    /// Takes in a payload as the receiver delivered it. One that is no
    /// message is reported and leaves the directory as it was.
    pub fn receive(&mut self, payload: &[u8]) -> (note: Notification)
        ensures
            final(self)@ == names_after_payload(old(self)@, payload@),
            note@ == notification_for_payload(old(self)@, payload@),
    {
        match Message::from_bytes(payload) {
            Ok(message) => self.dispatch(message.body),
            Err(reason) => Notification::ProtocolError { reason },
        }
    }
}

/// Where the inbound flow stands.
#[derive(Clone, Copy, Debug, PartialEq, Eq, Structural)]
pub enum FlowState {
    /// The flow takes events.
    Running,
    /// The receiver said that the topic is closed.
    Closed,
    /// The receiver failed; the process is to shut down.
    Failed,
}

/// What the receiver of a subscription hands over when it is asked for the
/// next event.
#[derive(Clone, Debug, PartialEq, Eq)]
pub enum InboundEvent {
    /// A payload that a peer broadcast.
    Received { payload: Vec<u8> },
    /// The subscription was closed.
    EndOfStream,
    /// The receiver failed for good.
    SubstrateError,
}

/// What the caller does after an event.
#[derive(Clone, Debug, PartialEq, Eq)]
pub enum InboundAction {
    /// Show the notification and ask for the next event.
    Notify { note: Notification },
    /// Leave the loop: the topic is closed.
    Stop,
    /// Leave the loop and report the failure.
    Fail,
}

/// Mathematical value of an [`InboundAction`].
pub enum ActionModel {
    Notify { note: NotificationModel },
    Stop,
    Fail,
}

impl View for InboundAction {
    type V = ActionModel;

    open spec fn view(&self) -> ActionModel {
        match self {
            InboundAction::Notify { note } => ActionModel::Notify { note: note@ },
            InboundAction::Stop => ActionModel::Stop,
            InboundAction::Fail => ActionModel::Fail,
        }
    }
}

/// The state after `event`: a running flow ends with the stream or with a
/// failure, and a flow that has ended stays as it is.
pub open spec fn state_after(state: FlowState, event: InboundEvent) -> FlowState {
    match state {
        FlowState::Running => match event {
            InboundEvent::Received { .. } => FlowState::Running,
            InboundEvent::EndOfStream => FlowState::Closed,
            InboundEvent::SubstrateError => FlowState::Failed,
        },
        FlowState::Closed => FlowState::Closed,
        FlowState::Failed => FlowState::Failed,
    }
}

/// The names after `event`: only a payload that reaches a running flow can
/// change them.
pub open spec fn names_after_event(
    state: FlowState,
    names: Map<Seq<u8>, Seq<char>>,
    event: InboundEvent,
) -> Map<Seq<u8>, Seq<char>> {
    match (state, event) {
        (FlowState::Running, InboundEvent::Received { payload }) => names_after_payload(
            names,
            payload@,
        ),
        _ => names,
    }
}

/// What the caller is told to do after `event`.
pub open spec fn action_for(
    state: FlowState,
    names: Map<Seq<u8>, Seq<char>>,
    event: InboundEvent,
) -> ActionModel {
    match state_after(state, event) {
        FlowState::Running => match event {
            InboundEvent::Received { payload } => ActionModel::Notify {
                note: notification_for_payload(names, payload@),
            },
            _ => ActionModel::Stop,
        },
        FlowState::Closed => ActionModel::Stop,
        FlowState::Failed => ActionModel::Fail,
    }
}

/// The inbound flow: the names learnt so far and whether the flow still runs.
pub struct Inbound {
    pub names: Directory,
    pub state: FlowState,
}

impl Inbound {
    /// A running flow that knows no peer.
    pub fn new() -> (flow: Inbound)
        ensures
            flow.names@ == Map::<Seq<u8>, Seq<char>>::empty(),
            flow.state == FlowState::Running,
    {
        Inbound { names: Directory::new(), state: FlowState::Running }
    }

    /// Takes the next event of the receiver and says what to do. Events are
    /// taken one at a time, in the order of their delivery.
    pub fn on_event(&mut self, event: InboundEvent) -> (action: InboundAction)
        ensures
            final(self).state == state_after(old(self).state, event),
            final(self).names@ == names_after_event(old(self).state, old(self).names@, event),
            action@ == action_for(old(self).state, old(self).names@, event),
    {
        match self.state {
            FlowState::Running => match event {
                InboundEvent::Received { payload } => {
                    let note = self.names.receive(payload.as_slice());
                    InboundAction::Notify { note }
                },
                InboundEvent::EndOfStream => {
                    self.state = FlowState::Closed;
                    InboundAction::Stop
                },
                InboundEvent::SubstrateError => {
                    self.state = FlowState::Failed;
                    InboundAction::Fail
                },
            },
            FlowState::Closed => InboundAction::Stop,
            FlowState::Failed => InboundAction::Fail,
        }
    }
}

/// The outbound flow of the local peer.
pub struct Outbound {
    pub me: PeerId,
}

impl Outbound {
    /// Starts the flow of `me`. The payload returned announces `name` and is
    /// to be broadcast before any line is taken.
    pub fn join(me: PeerId, name: String) -> (started: (Outbound, Vec<u8>))
        ensures
            started.0.me == me,
            carries(started.1@, BodyModel::AboutMe { from: me@, name: name@ }),
    {
        let message = Message::new(MessageBody::AboutMe { from: me, name });
        (Outbound { me }, message.to_vec())
    }

    /// The payload to broadcast for a line that the user typed. Lines are
    /// handed in one at a time, each after the broadcast before it is done.
    pub fn on_line(&self, line: String) -> (payload: Vec<u8>)
        ensures
            carries(payload@, BodyModel::Chat { from: self.me@, text: line@ }),
    {
        let message = Message::new(MessageBody::Chat { from: self.me, text: line });
        message.to_vec()
    }
}

/// A payload that is no message is reported and changes no name: the flow
/// goes on with what it knew.
pub proof fn lemma_malformed_payload_reported(
    names: Map<Seq<u8>, Seq<char>>,
    payload: Seq<u8>,
    reason: MalformedMessageError,
)
    requires
        decode_message(payload) == Err::<MessageModel, MalformedMessageError>(reason),
    ensures
        names_after_payload(names, payload) == names,
        notification_for_payload(names, payload) == (NotificationModel::ProtocolError { reason }),
{
}

/// A peer's announcement is heard: once a payload that announces `name` for
/// `peer` is taken in, a chat line of that peer is shown under `name`,
/// whatever was known before.
pub proof fn lemma_announced_name_shown(
    names: Map<Seq<u8>, Seq<char>>,
    peer: Seq<u8>,
    name: Seq<char>,
    text: Seq<char>,
    announcement: Seq<u8>,
    line: Seq<u8>,
)
    requires
        carries(announcement, BodyModel::AboutMe { from: peer, name }),
        carries(line, BodyModel::Chat { from: peer, text }),
    ensures
        display_name_of(names_after_payload(names, announcement), peer) == name,
        names_after_payload(names_after_payload(names, announcement), line)
            == names_after_payload(names, announcement),
        notification_for_payload(names_after_payload(names, announcement), line) == (
        NotificationModel::Chat { name, text }),
{
}

/// What is encoded carries its body: the payload of a message is a message
/// with that body.
pub proof fn lemma_encoding_carries_body(m: MessageModel)
    requires
        m.wf(),
    ensures
        carries(encode_message(m), m.body),
{
    lemma_message_round_trip(m);
}

/// A flow that has ended stays ended and changes no name, whatever arrives.
pub proof fn lemma_ended_flow_stays(
    state: FlowState,
    names: Map<Seq<u8>, Seq<char>>,
    event: InboundEvent,
)
    requires
        state != FlowState::Running,
    ensures
        state_after(state, event) == state,
        names_after_event(state, names, event) == names,
        !(action_for(state, names, event) is Notify),
{
}

} // verus!
