//! Telling the consumers of glide about its state.
use vstd::prelude::*;
use vstd::string::*;

use crate::algorithm::GlideState;

verus! {

/// A backend receives glide state transitions and translates them
/// into whatever the consumer expects.
pub trait Backend {
    /// Takes in a transition.
    fn on_state_change(&mut self, state: GlideState);
}

/// What kanata is asked to do with the virtual key: press it for an activation, release it for a
/// deactivation.
pub open spec fn action(state: GlideState) -> Seq<char> {
    match state {
        GlideState::Active => "Press"@,
        GlideState::Inactive => "Release"@,
    }
}

/// The message that asks kanata to press or release a virtual key.
pub open spec fn message(virtual_key: Seq<char>, state: GlideState) -> Seq<char> {
    "{\"ActOnFakeKey\":{\"name\":\""@ + virtual_key + "\",\"action\":\""@ + action(state)
        + "\"}}"@
}

/// What is to be done on the connection to kanata.
#[derive(Debug)]
pub enum LinkAction {
    /// Connect, and report whether that worked.
    Connect,
    /// Send this text over the connection, and report whether that worked.
    Send(String),
    /// Nothing.
    Rest,
}

/// What came of an action on the connection to kanata.
#[derive(Clone, Copy, Debug, PartialEq, Eq, Structural)]
pub enum LinkEvent {
    Connected,
    ConnectFailed,
    Sent,
    SendFailed,
}

/// What came of connecting to kanata.
#[derive(Debug)]
pub enum ConnectOutcome {
    /// The connection is there, and sends without delay.
    Ready,
    /// No connection could be made.
    Failed,
    /// The connection could not be told to send without delay, for this reason.
    NoDelayFailed(String),
}

/// What a connection that could not be made is reported as.
pub open spec fn connect_context(address: Seq<char>) -> Seq<char> {
    "failed to connect to kanata at "@ + address
}

/// What a kanata client keeps: whether there is a connection, and the transition that is still to
/// be sent.
pub struct LinkModel {
    pub address: Seq<char>,
    pub virtual_key: Seq<char>,
    pub connected: bool,
    pub pending: Option<GlideState>,
}

impl LinkModel {
    /// What is to be done next: without something to send, nothing; without a connection, connect;
    /// else send.
    pub open spec fn asks_for(self, action: LinkAction) -> bool {
        match action {
            LinkAction::Connect => self.pending is Some && !self.connected,
            LinkAction::Send(text) => self.pending matches Some(state) && self.connected && text@
                == message(self.virtual_key, state),
            LinkAction::Rest => self.pending is None,
        }
    }

    /// The model after a transition, which is to be sent.
    pub open spec fn with_transition(self, state: GlideState) -> LinkModel {
        LinkModel { pending: Some(state), ..self }
    }

    /// The model after an action came to `event`. A connection that was made is used to send, one
    /// that could not be made or used is given up together with what was to be sent.
    pub open spec fn after(self, event: LinkEvent) -> LinkModel {
        match event {
            LinkEvent::Connected => LinkModel { connected: true, ..self },
            LinkEvent::ConnectFailed => LinkModel { connected: false, pending: None, ..self },
            LinkEvent::Sent => LinkModel { pending: None, ..self },
            LinkEvent::SendFailed => LinkModel { connected: false, pending: None, ..self },
        }
    }

    /// The model after connecting came to `outcome`, which only matters without a connection. A
    /// connection that does not send without delay is not kept.
    pub open spec fn after_connecting(self, outcome: ConnectOutcome) -> LinkModel {
        if self.connected {
            self
        } else if outcome is Ready {
            self.after(LinkEvent::Connected)
        } else {
            self.after(LinkEvent::ConnectFailed)
        }
    }
}

/// Kanata backend: translates activation state into FakeKey press/release
/// over kanata's TCP protocol.
///
/// The client decides what is done on the connection; whoever holds the connection does it and
/// reports back.
pub struct KanataClient {
    address: String,
    virtual_key: String,
    connected: bool,
    pending: Option<GlideState>,
}

impl View for KanataClient {
    type V = LinkModel;

    closed spec fn view(&self) -> LinkModel {
        LinkModel {
            address: self.address@,
            virtual_key: self.virtual_key@,
            connected: self.connected,
            pending: self.pending,
        }
    }
}

/// The message that asks kanata to press or release a virtual key.
pub fn kanata_message(virtual_key: &str, state: GlideState) -> (text: String)
    ensures
        text@ == message(virtual_key@, state),
{
    let action = match state {
        GlideState::Active => "Press",
        GlideState::Inactive => "Release",
    };
    let mut text = "{\"ActOnFakeKey\":{\"name\":\"".to_owned();
    text.append(virtual_key);
    text.append("\",\"action\":\"");
    text.append(action);
    text.append("\"}}");
    text
}

impl KanataClient {
    /// A client that is not connected.
    pub fn new(address: String, virtual_key: String) -> (r: Self)
        ensures
            r@ == (LinkModel {
                address: address@,
                virtual_key: virtual_key@,
                connected: false,
                pending: None,
            }),
    {
        KanataClient { address, virtual_key, connected: false, pending: None }
    }

    /// The address to connect to.
    pub fn address(&self) -> (address: &str)
        ensures
            address@ == self@.address,
    {
        self.address.as_str()
    }

    /// What a connection that could not be made is reported as.
    pub fn connect_error_context(&self) -> (text: String)
        ensures
            text@ == connect_context(self@.address),
    {
        let mut text = "failed to connect to kanata at ".to_owned();
        text.append(self.address.as_str());
        text
    }

    /// What is to be done next.
    pub fn next_action(&self) -> (next: LinkAction)
        ensures
            self@.asks_for(next),
    {
        match self.pending {
            None => LinkAction::Rest,
            Some(state) => if self.connected {
                LinkAction::Send(kanata_message(self.virtual_key.as_str(), state))
            } else {
                LinkAction::Connect
            },
        }
    }

    /// Takes in what came of connecting. Succeeds if there is a connection now, and otherwise
    /// returns what to report.
    pub fn ensure_connected(&mut self, outcome: ConnectOutcome) -> (r: Result<(), String>)
        ensures
            final(self)@ == old(self)@.after_connecting(outcome),
            r is Ok <==> old(self)@.connected || outcome is Ready,
            r is Ok <==> final(self)@.connected,
            r matches Err(text) ==> match outcome {
                ConnectOutcome::NoDelayFailed(reason) => text@ == reason@,
                _ => text@ == connect_context(old(self)@.address),
            },
    {
        if self.connected {
            return Ok(());
        }
        match outcome {
            ConnectOutcome::Ready => {
                self.on_link_event(LinkEvent::Connected);
                Ok(())
            },
            ConnectOutcome::Failed => {
                self.on_link_event(LinkEvent::ConnectFailed);
                Err(self.connect_error_context())
            },
            ConnectOutcome::NoDelayFailed(reason) => {
                self.on_link_event(LinkEvent::ConnectFailed);
                Err(reason)
            },
        }
    }

    /// Takes in what came of the last action.
    pub fn on_link_event(&mut self, event: LinkEvent)
        ensures
            final(self)@ == old(self)@.after(event),
    {
        match event {
            LinkEvent::Connected => {
                self.connected = true;
            },
            LinkEvent::ConnectFailed => {
                self.connected = false;
                self.pending = None;
            },
            LinkEvent::Sent => {
                self.pending = None;
            },
            LinkEvent::SendFailed => {
                self.connected = false;
                self.pending = None;
            },
        }
    }
}

impl Backend for KanataClient {
    fn on_state_change(&mut self, state: GlideState)
        ensures
            final(self)@ == old(self)@.with_transition(state),
    {
        self.pending = Some(state);
    }
}

/// A client always asks for exactly one kind of action.
pub proof fn law_one_action_at_a_time(model: LinkModel, a: LinkAction, b: LinkAction)
    requires
        model.asks_for(a),
        model.asks_for(b),
    ensures
        a is Connect <==> b is Connect,
        a is Rest <==> b is Rest,
        a matches LinkAction::Send(s) ==> b matches LinkAction::Send(t) && s@ == t@,
{
}

/// For a transition that is to be sent, connecting is tried exactly if no connection is held, and
/// the transition is then sent exactly if connecting gave one.
pub proof fn law_connects_only_without_connection(
    model: LinkModel,
    action: LinkAction,
    outcome: ConnectOutcome,
    next: LinkAction,
)
    requires
        model.pending is Some,
        model.asks_for(action),
        model.after_connecting(outcome).asks_for(next),
    ensures
        action is Connect <==> !model.connected,
        model.after_connecting(outcome).connected <==> model.connected || outcome is Ready,
        next is Send <==> model.connected || outcome is Ready,
        next matches LinkAction::Send(text) ==> text@ == message(
            model.virtual_key,
            model.pending->0,
        ),
{
}

/// A transition takes at most one connection and at most one message, and then nothing is left to
/// do: connecting is followed by sending, and everything else by rest.
pub proof fn law_transition_is_told_at_most_once(
    model: LinkModel,
    done: LinkAction,
    event: LinkEvent,
    next: LinkAction,
)
    requires
        model.asks_for(done),
        done is Connect ==> event is Connected || event is ConnectFailed,
        done is Send ==> event is Sent || event is SendFailed,
        !(done is Rest),
        model.after(event).asks_for(next),
    ensures
        event is Connected ==> (next matches LinkAction::Send(text) && text@ == message(
            model.virtual_key,
            model.pending->0,
        )),
        !(event is Connected) ==> next is Rest,
{
}

/// After a failure the next transition connects anew, and after a success it uses the connection.
pub proof fn law_failure_reconnects(
    model: LinkModel,
    event: LinkEvent,
    state: GlideState,
    next: LinkAction,
)
    requires
        model.after(event).with_transition(state).asks_for(next),
    ensures
        event is ConnectFailed || event is SendFailed ==> next is Connect,
        event is Sent && model.connected ==> (next matches LinkAction::Send(text) && text@
            == message(model.virtual_key, state)),
{
}

/// Kanata can tell an activation from a deactivation.
pub proof fn law_messages_differ(virtual_key: Seq<char>)
    ensures
        message(virtual_key, GlideState::Active) != message(virtual_key, GlideState::Inactive),
{
    reveal_strlit("Press");
    reveal_strlit("Release");
    assert(message(virtual_key, GlideState::Active).len() < message(
        virtual_key,
        GlideState::Inactive,
    ).len());
}

/// A message has the name of the virtual key as it is, and asks for a press on activation and for a
/// release on deactivation.
pub proof fn law_message_asks_for_the_key(virtual_key: Seq<char>)
    ensures
        message(virtual_key, GlideState::Active) == "{\"ActOnFakeKey\":{\"name\":\""@ + virtual_key
            + "\",\"action\":\"Press\"}}"@,
        message(virtual_key, GlideState::Inactive) == "{\"ActOnFakeKey\":{\"name\":\""@
            + virtual_key + "\",\"action\":\"Release\"}}"@,
{
    reveal_strlit("\",\"action\":\"");
    reveal_strlit("Press");
    reveal_strlit("Release");
    reveal_strlit("\"}}");
    reveal_strlit("\",\"action\":\"Press\"}}");
    reveal_strlit("\",\"action\":\"Release\"}}");
    assert("\",\"action\":\""@ + "Press"@ + "\"}}"@ == "\",\"action\":\"Press\"}}"@);
    assert("\",\"action\":\""@ + "Release"@ + "\"}}"@ == "\",\"action\":\"Release\"}}"@);
    let head = "{\"ActOnFakeKey\":{\"name\":\""@ + virtual_key;
    assert(head + "\",\"action\":\""@ + "Press"@ + "\"}}"@ == head + ("\",\"action\":\""@
        + "Press"@ + "\"}}"@));
    assert(head + "\",\"action\":\""@ + "Release"@ + "\"}}"@ == head + ("\",\"action\":\""@
        + "Release"@ + "\"}}"@));
}

/// A report of a connection that could not be made ends in the address.
pub proof fn law_connect_report_names_the_address(address: Seq<char>)
    ensures
        connect_context(address) == "failed to connect to kanata at "@ + address,
{
}

/// Nothing that happens on the link changes where it goes or which key it is about.
pub proof fn law_link_keeps_its_settings(
    model: LinkModel,
    state: GlideState,
    event: LinkEvent,
    outcome: ConnectOutcome,
)
    ensures
        model.with_transition(state).address == model.address,
        model.with_transition(state).virtual_key == model.virtual_key,
        model.with_transition(state).connected == model.connected,
        model.after(event).address == model.address,
        model.after(event).virtual_key == model.virtual_key,
        model.after_connecting(outcome).address == model.address,
        model.after_connecting(outcome).virtual_key == model.virtual_key,
{
}

/// The latest transition is the one that is sent: over the connection that is held, or over the one
/// that is made for it. After that nothing is left to do, and the connection is held on to.
pub proof fn law_transition_is_sent(
    model: LinkModel,
    state: GlideState,
    first: LinkAction,
    second: LinkAction,
    last: LinkAction,
)
    requires
        model.with_transition(state).asks_for(first),
        model.with_transition(state).after_connecting(ConnectOutcome::Ready).asks_for(second),
        model.with_transition(state).after_connecting(ConnectOutcome::Ready).after(
            LinkEvent::Sent,
        ).asks_for(last),
    ensures
        model.connected ==> (first matches LinkAction::Send(text) && text@ == message(
            model.virtual_key,
            state,
        )),
        !model.connected ==> first is Connect,
        second matches LinkAction::Send(text) && text@ == message(model.virtual_key, state),
        last is Rest,
        model.with_transition(state).after_connecting(ConnectOutcome::Ready).after(
            LinkEvent::Sent,
        ).connected,
{
}

/// What is lost is lost: after a failure to connect or to send there is no connection, and what was
/// to be sent is given up.
pub proof fn law_failure_gives_up(model: LinkModel, outcome: ConnectOutcome)
    ensures
        !model.after(LinkEvent::ConnectFailed).connected,
        model.after(LinkEvent::ConnectFailed).pending is None,
        !model.after(LinkEvent::SendFailed).connected,
        model.after(LinkEvent::SendFailed).pending is None,
        model.after(LinkEvent::Connected).connected,
        model.after(LinkEvent::Connected).pending == model.pending,
        model.after(LinkEvent::Sent).pending is None,
        model.after(LinkEvent::Sent).connected == model.connected,
        !model.connected && !(outcome is Ready) ==> !model.after_connecting(outcome).connected
            && model.after_connecting(outcome).pending is None,
        model.connected || outcome is Ready ==> model.after_connecting(outcome).connected
            && model.after_connecting(outcome).pending == model.pending,
{
}

} // verus!
