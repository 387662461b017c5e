//! Input events, as the kernel's evdev interface reports them.
use vstd::prelude::*;

verus! {

/// The event type of keys and buttons.
pub const EV_KEY: u16 = 0x01;

/// The event type of absolute axes.
pub const EV_ABS: u16 = 0x03;

/// The button that tells whether a finger is on the pad.
pub const BTN_TOOL_FINGER: u16 = 0x145;

/// The horizontal axis.
pub const ABS_X: u16 = 0x00;

/// The vertical axis.
pub const ABS_Y: u16 = 0x01;

/// The horizontal axis of one contact of several.
pub const ABS_MT_POSITION_X: u16 = 0x35;

/// The vertical axis of one contact of several.
pub const ABS_MT_POSITION_Y: u16 = 0x36;

/// `evdev::InputEvent`, an event as it was read from a device.
#[verifier::external_type_specification]
#[verifier::external_body]
pub struct ExInputEvent(evdev::InputEvent);

/// What `evdev::InputEvent::event_type` returns, as a number.
pub uninterp spec fn event_type_of(event: evdev::InputEvent) -> u16;

/// What `evdev::InputEvent::code` returns.
pub uninterp spec fn code_of(event: evdev::InputEvent) -> u16;

/// What `evdev::InputEvent::value` returns.
pub uninterp spec fn value_of(event: evdev::InputEvent) -> i32;

/// `evdev::InputEvent::event_type`, which hands out the type field of the event.
#[verifier::external_body]
fn event_type(event: &evdev::InputEvent) -> (r: u16)
    ensures
        r == event_type_of(*event),
{
    event.event_type().0
}

/// `evdev::InputEvent::code`, which hands out the code field of the event.
#[verifier::external_body]
fn code(event: &evdev::InputEvent) -> (r: u16)
    ensures
        r == code_of(*event),
{
    event.code()
}

/// `evdev::InputEvent::value`, which hands out the value field of the event.
#[verifier::external_body]
fn value(event: &evdev::InputEvent) -> (r: i32)
    ensures
        r == value_of(*event),
{
    event.value()
}

/// The fields of an input event.
#[derive(Clone, Copy, Debug, PartialEq, Eq, Structural)]
pub struct RawEvent {
    pub kind: u16,
    pub code: u16,
    pub value: i32,
}

/// What an input event tells about the finger on the pad.
#[derive(Clone, Copy, Debug, PartialEq, Eq, Structural)]
pub enum Touch {
    /// The finger came down.
    Down,
    /// The finger was lifted.
    Up,
    /// The finger's horizontal position.
    X(i32),
    /// The finger's vertical position.
    Y(i32),
    /// Nothing.
    Other,
}

/// The fields of `event`.
pub open spec fn raw_event(event: evdev::InputEvent) -> RawEvent {
    RawEvent { kind: event_type_of(event), code: code_of(event), value: value_of(event) }
}

/// The fields of each of `events`.
pub open spec fn raw_events(events: Seq<evdev::InputEvent>) -> Seq<RawEvent> {
    events.map_values(|event: evdev::InputEvent| raw_event(event))
}

impl RawEvent {
    /// The meaning of the event for the finger on the pad: the finger button says whether the
    /// finger is down, and the absolute axes where it is.
    pub open spec fn meaning(self) -> Touch {
        if self.kind == EV_KEY && self.code == BTN_TOOL_FINGER {
            if self.value != 0 {
                Touch::Down
            } else {
                Touch::Up
            }
        } else if self.kind == EV_ABS && (self.code == ABS_X || self.code == ABS_MT_POSITION_X) {
            Touch::X(self.value)
        } else if self.kind == EV_ABS && (self.code == ABS_Y || self.code == ABS_MT_POSITION_Y) {
            Touch::Y(self.value)
        } else {
            Touch::Other
        }
    }

    /// The meaning of the event for the finger on the pad.
    pub fn touch(&self) -> (r: Touch)
        ensures
            r == self.meaning(),
    {
        if self.kind == EV_KEY && self.code == BTN_TOOL_FINGER {
            if self.value != 0 {
                Touch::Down
            } else {
                Touch::Up
            }
        } else if self.kind == EV_ABS {
            if self.code == ABS_X || self.code == ABS_MT_POSITION_X {
                Touch::X(self.value)
            } else if self.code == ABS_Y || self.code == ABS_MT_POSITION_Y {
                Touch::Y(self.value)
            } else {
                Touch::Other
            }
        } else {
            Touch::Other
        }
    }

    /// Whether the event is a key going down; a key that repeats or is let go is not.
    pub open spec fn is_press(self) -> bool {
        self.kind == EV_KEY && self.value == 1
    }

    /// Whether the event is a key going down.
    pub fn is_key_press(&self) -> (r: bool)
        ensures
            r == self.is_press(),
    {
        self.kind == EV_KEY && self.value == 1
    }
}

/// An event tells of the finger exactly if it is one of the finger button, and of a coordinate
/// exactly if it is one of an absolute axis for it, plain or multi-touch; nothing else tells
/// anything.
pub proof fn law_meaning_of_events(event: RawEvent)
    ensures
        event.meaning() is Down <==> event.kind == 1 && event.code == 325 && event.value != 0,
        event.meaning() is Up <==> event.kind == 1 && event.code == 325 && event.value == 0,
        event.meaning() is X <==> event.kind == 3 && (event.code == 0 || event.code == 53),
        event.meaning() is Y <==> event.kind == 3 && (event.code == 1 || event.code == 54),
        event.meaning() matches Touch::X(x) ==> x == event.value,
        event.meaning() matches Touch::Y(y) ==> y == event.value,
{
}

/// An event is a key press exactly if it is one of a key and its value is one.
pub proof fn law_meaning_of_presses(event: RawEvent)
    ensures
        event.is_press() <==> event.kind == 1 && event.value == 1,
{
}

/// Reading keeps every event in its place, with all of its fields.
pub proof fn law_reading_keeps_events(events: Seq<evdev::InputEvent>)
    ensures
        raw_events(events).len() == events.len(),
        forall|i: int|
            0 <= i < events.len() ==> {
                &&& (#[trigger] raw_events(events)[i]).kind == event_type_of(events[i])
                &&& raw_events(events)[i].code == code_of(events[i])
                &&& raw_events(events)[i].value == value_of(events[i])
            },
{
}

/// Reads the fields of an event.
pub fn read_event(event: &evdev::InputEvent) -> (r: RawEvent)
    ensures
        r == raw_event(*event),
{
    RawEvent { kind: event_type(event), code: code(event), value: value(event) }
}

/// Reads the fields of each event, in order.
pub fn read_events(events: &[evdev::InputEvent]) -> (r: Vec<RawEvent>)
    ensures
        r@ == raw_events(events@),
{
    let mut out: Vec<RawEvent> = Vec::new();
    let mut i: usize = 0;
    while i < events.len()
        invariant
            i <= events.len(),
            out@ == raw_events(events@.take(i as int)),
        decreases events.len() - i,
    {
        out.push(read_event(&events[i]));
        proof {
            assert(events@.take(i as int + 1) == events@.take(i as int).push(events@[i as int]));
        }
        i = i + 1;
    }
    assert(events@.take(events.len() as int) == events@);
    out
}

} // verus!
