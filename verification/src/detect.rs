//! Finding the touchpad among the input devices.
use vstd::prelude::*;
use vstd::string::*;

use crate::input::{ABS_X, ABS_Y, BTN_TOOL_FINGER};

verus! {

/// `evdev::Key`, a key or button.
#[verifier::external_type_specification]
#[verifier::external_body]
pub struct ExKey(evdev::Key);

/// `evdev::AbsoluteAxisType`, an absolute axis.
#[verifier::external_type_specification]
#[verifier::external_body]
pub struct ExAbsoluteAxisType(evdev::AbsoluteAxisType);

/// `evdev::AttributeSetRef`, the set of keys or axes that a device has.
#[verifier::external_type_specification]
#[verifier::external_body]
#[verifier::reject_recursive_types(T)]
pub struct ExAttributeSetRef<T>(evdev::AttributeSetRef<T>);

/// The codes of the keys in a set of keys.
pub uninterp spec fn key_codes(keys: &evdev::AttributeSetRef<evdev::Key>) -> Set<u16>;

/// The codes of the axes in a set of absolute axes.
pub uninterp spec fn axis_codes(axes: &evdev::AttributeSetRef<evdev::AbsoluteAxisType>) -> Set<u16>;

/// `evdev::AttributeSetRef::contains` for keys: whether the key with this code is in the set.
#[verifier::external_body]
fn has_key(keys: &evdev::AttributeSetRef<evdev::Key>, code: u16) -> (r: bool)
    ensures
        r == key_codes(keys).contains(code),
{
    keys.contains(evdev::Key::new(code))
}

/// `evdev::AttributeSetRef::contains` for absolute axes: whether the axis with this code is in the
/// set.
#[verifier::external_body]
fn has_axis(axes: &evdev::AttributeSetRef<evdev::AbsoluteAxisType>, code: u16) -> (r: bool)
    ensures
        r == axis_codes(axes).contains(code),
{
    axes.contains(evdev::AbsoluteAxisType(code))
}

/// What `format!("{:?}", text)` returns: the text in quotes, with escapes.
pub uninterp spec fn debug_form(text: Seq<char>) -> Seq<char>;

/// `format!` with the debug form of a string.
#[verifier::external_body]
fn quoted(text: &str) -> (r: String)
    ensures
        r@ == debug_form(text@),
{
    format!("{:?}", text)
}

/// A candidate touchpad device found by scanning /dev/input.
#[derive(Debug)]
pub struct TouchpadCandidate {
    pub path: String,
    pub name: String,
}

impl View for TouchpadCandidate {
    type V = (Seq<char>, Seq<char>);

    open spec fn view(&self) -> (Seq<char>, Seq<char>) {
        (self.path@, self.name@)
    }
}

/// An input device: where it is, how it is named, and the keys and absolute axes that it has.
pub struct DeviceInfo<'a> {
    pub path: String,
    pub name: Option<&'a str>,
    pub keys: Option<&'a evdev::AttributeSetRef<evdev::Key>>,
    pub axes: Option<&'a evdev::AttributeSetRef<evdev::AbsoluteAxisType>>,
}

/// Whether a device has the capabilities of a touchpad, and is not the virtual device of kanata.
pub open spec fn looks_like_touchpad(
    name: Option<&str>,
    keys: Option<&evdev::AttributeSetRef<evdev::Key>>,
    axes: Option<&evdev::AttributeSetRef<evdev::AbsoluteAxisType>>,
) -> bool {
    &&& !(name matches Some(n) && n@ == "kanata"@)
    &&& keys matches Some(k) && key_codes(k).contains(BTN_TOOL_FINGER)
    &&& axes matches Some(a) && axis_codes(a).contains(ABS_X) && axis_codes(a).contains(ABS_Y)
}

/// Check if a device looks like a touchpad based on capabilities.
/// A touchpad typically has:
///   - BTN_TOOL_FINGER (contact detection)
///   - ABS_X + ABS_Y (absolute position)
///   - is NOT named "kanata" (virtual device)
pub fn is_touchpad(
    name: Option<&str>,
    keys: Option<&evdev::AttributeSetRef<evdev::Key>>,
    axes: Option<&evdev::AttributeSetRef<evdev::AbsoluteAxisType>>,
) -> (r: bool)
    ensures
        r == looks_like_touchpad(name, keys, axes),
{
    if let Some(n) = name {
        if n.to_owned() == "kanata".to_owned() {
            return false;
        }
    }
    let has_finger = match keys {
        Some(k) => has_key(k, BTN_TOOL_FINGER),
        None => false,
    };
    let has_abs_xy = match axes {
        Some(a) => has_axis(a, ABS_X) && has_axis(a, ABS_Y),
        None => false,
    };
    has_finger && has_abs_xy
}

impl<'a> DeviceInfo<'a> {
    /// Whether the device looks like a touchpad.
    pub open spec fn qualifies(self) -> bool {
        looks_like_touchpad(self.name, self.keys, self.axes)
    }

    /// The path and the name of the device; one without a name is called unknown.
    pub open spec fn description(self) -> (Seq<char>, Seq<char>) {
        (
            self.path@,
            match self.name {
                Some(name) => name@,
                None => "unknown"@,
            },
        )
    }
}

/// The paths and names of the candidates.
pub open spec fn descriptions(candidates: Seq<TouchpadCandidate>) -> Seq<(Seq<char>, Seq<char>)> {
    candidates.map_values(|c: TouchpadCandidate| c@)
}

/// The paths and names of those devices that look like touchpads, in order.
pub open spec fn touchpads<'a>(devices: Seq<DeviceInfo<'a>>) -> Seq<(Seq<char>, Seq<char>)> {
    devices.filter(|d: DeviceInfo<'a>| d.qualifies()).map_values(
        |d: DeviceInfo<'a>| d.description(),
    )
}

/// One more device adds its description if it looks like a touchpad, and nothing otherwise.
proof fn lemma_touchpads_step<'a>(devices: Seq<DeviceInfo<'a>>, i: int)
    requires
        0 <= i < devices.len(),
    ensures
        touchpads(devices.take(i + 1)) == if devices[i].qualifies() {
            touchpads(devices.take(i)).push(devices[i].description())
        } else {
            touchpads(devices.take(i))
        },
{
    reveal(Seq::filter);
    assert(devices.take(i + 1).drop_last() == devices.take(i));
    assert(devices.take(i + 1).last() == devices[i]);
    let earlier = devices.take(i).filter(|d: DeviceInfo<'a>| d.qualifies());
    let describe = |d: DeviceInfo<'a>| d.description();
    assert(earlier.push(devices[i]).map_values(describe) == earlier.map_values(describe).push(
        devices[i].description(),
    ));
}

/// The devices that look like touchpads.
pub fn find_touchpads<'a>(devices: &Vec<DeviceInfo<'a>>) -> (candidates: Vec<TouchpadCandidate>)
    ensures
        descriptions(candidates@) == touchpads(devices@),
{
    let mut candidates: Vec<TouchpadCandidate> = Vec::new();
    let mut i: usize = 0;
    assert(devices@.take(0) == Seq::<DeviceInfo<'a>>::empty());
    assert(touchpads(devices@.take(0)) == descriptions(candidates@)) by {
        reveal(Seq::filter);
    }
    while i < devices.len()
        invariant
            i <= devices.len(),
            descriptions(candidates@) == touchpads(devices@.take(i as int)),
        decreases devices.len() - i,
    {
        proof {
            lemma_touchpads_step(devices@, i as int);
        }
        let device = &devices[i];
        if is_touchpad(device.name, device.keys, device.axes) {
            let ghost before = candidates@;
            let name = match device.name {
                Some(name) => name.to_owned(),
                None => "unknown".to_owned(),
            };
            let candidate = TouchpadCandidate { path: device.path.clone(), name };
            candidates.push(candidate);
            assert(descriptions(candidates@) == descriptions(before).push(candidate@));
        }
        i = i + 1;
    }
    assert(devices@.take(devices.len() as int) == devices@);
    candidates
}

/// How a candidate is shown: its path, and its name in quotes.
pub open spec fn shown(description: (Seq<char>, Seq<char>)) -> Seq<char> {
    description.0 + " — "@ + debug_form(description.1)
}

/// One line for each candidate, set in by two spaces.
pub open spec fn listing(descriptions: Seq<(Seq<char>, Seq<char>)>) -> Seq<char>
    decreases descriptions.len(),
{
    if descriptions.len() == 0 {
        Seq::empty()
    } else {
        listing(descriptions.drop_last()) + "  "@ + shown(descriptions.last()) + "\n"@
    }
}

/// How a candidate with this path is shown, given its name in quotes.
pub fn shown_as(path: &str, quoted_name: &str) -> (text: String)
    ensures
        text@ == path@ + " — "@ + quoted_name@,
{
    let mut text = path.to_owned();
    text.append(" — ");
    text.append(quoted_name);
    text
}

impl TouchpadCandidate {
    /// The candidate as it is shown: its path, and its name in quotes.
    pub fn display(&self) -> (text: String)
        ensures
            text@ == shown(self@),
    {
        shown_as(self.path.as_str(), quoted(self.name.as_str()).as_str())
    }
}

/// One line for each candidate, set in by two spaces.
fn list_candidates(candidates: &Vec<TouchpadCandidate>) -> (text: String)
    ensures
        text@ == listing(descriptions(candidates@)),
{
    let mut text = String::new();
    let mut i: usize = 0;
    let ghost all = descriptions(candidates@);
    while i < candidates.len()
        invariant
            i <= candidates.len(),
            all == descriptions(candidates@),
            text@ == listing(all.take(i as int)),
        decreases candidates.len() - i,
    {
        proof {
            assert(all.take(i as int + 1).drop_last() == all.take(i as int));
            assert(all.take(i as int + 1).last() == candidates@[i as int]@);
        }
        text.append("  ");
        text.append(candidates[i].display().as_str());
        text.append("\n");
        i = i + 1;
    }
    assert(all.take(candidates.len() as int) == all);
    text
}

/// What the list of devices says.
pub open spec fn device_list(descriptions: Seq<(Seq<char>, Seq<char>)>) -> Seq<char> {
    if descriptions.len() == 0 {
        "No touchpad devices found.\n\nMake sure you have permission to read /dev/input/event* (try running with sudo).\n"@
    } else {
        "Touchpad devices found:\n\n"@ + listing(descriptions) + "\nUse: glide --device <path>\n"@
    }
}

/// The text that lists all touchpad candidates.
pub fn list_devices(candidates: &Vec<TouchpadCandidate>) -> (text: String)
    ensures
        text@ == device_list(descriptions(candidates@)),
{
    if candidates.len() == 0 {
        "No touchpad devices found.\n\nMake sure you have permission to read /dev/input/event* (try running with sudo).\n".to_owned()
    } else {
        let mut text = "Touchpad devices found:\n\n".to_owned();
        text.append(list_candidates(candidates).as_str());
        text.append("\nUse: glide --device <path>\n");
        text
    }
}

/// Why no touchpad could be chosen.
#[derive(Debug)]
pub enum DetectError {
    /// There is none.
    NoneFound,
    /// There are several, which are listed line by line.
    SeveralFound(String),
}

impl DetectError {
    /// What the error says.
    pub open spec fn text(self) -> Seq<char> {
        match self {
            DetectError::NoneFound => "No touchpad device found.\nMake sure you have permission to read /dev/input/event* (try running with sudo).\nOr specify a device explicitly: glide --device /dev/input/eventX\nTo list candidates: glide --list-devices"@,
            DetectError::SeveralFound(lines) => "Multiple touchpad devices found:\n\n"@ + lines@
                + "\nPlease specify one: glide --device <path>"@,
        }
    }

    /// What the error says.
    pub fn message(&self) -> (text: String)
        ensures
            text@ == self.text(),
    {
        match self {
            DetectError::NoneFound => "No touchpad device found.\nMake sure you have permission to read /dev/input/event* (try running with sudo).\nOr specify a device explicitly: glide --device /dev/input/eventX\nTo list candidates: glide --list-devices".to_owned(),
            DetectError::SeveralFound(lines) => {
                let mut text = "Multiple touchpad devices found:\n\n".to_owned();
                text.append(lines.as_str());
                text.append("\nPlease specify one: glide --device <path>");
                text
            },
        }
    }
}

/// Auto-detect a touchpad device. Returns the path if exactly one is found.
/// Returns an error with a helpful message if zero or multiple are found.
pub fn autodetect(candidates: &Vec<TouchpadCandidate>) -> (r: Result<String, DetectError>)
    ensures
        match r {
            Ok(path) => candidates@.len() == 1 && path@ == candidates@[0].path@,
            Err(DetectError::NoneFound) => candidates@.len() == 0,
            Err(DetectError::SeveralFound(lines)) => candidates@.len() > 1 && lines@ == listing(
                descriptions(candidates@),
            ),
        },
{
    if candidates.len() == 0 {
        Err(DetectError::NoneFound)
    } else if candidates.len() == 1 {
        Ok(candidates[0].path.clone())
    } else {
        Err(DetectError::SeveralFound(list_candidates(candidates)))
    }
}

/// The virtual device of kanata is never a candidate, whatever it has; and without the finger
/// button or one of the two axes no device is.
pub proof fn law_who_is_no_candidate<'a>(device: DeviceInfo<'a>)
    ensures
        device.name matches Some(name) && name@ == "kanata"@ ==> !device.qualifies(),
        device.keys is None || !key_codes(device.keys->0).contains(BTN_TOOL_FINGER)
            ==> !device.qualifies(),
        device.axes is None || !axis_codes(device.axes->0).contains(ABS_X) || !axis_codes(
            device.axes->0,
        ).contains(ABS_Y) ==> !device.qualifies(),
{
}

/// Every device that has the finger button and both plain axes is a candidate, whatever else it
/// has, unless it is the virtual device of kanata; and no other device is.
pub proof fn law_who_is_a_candidate<'a>(device: DeviceInfo<'a>)
    ensures
        device.qualifies() <==> {
            &&& device.keys is Some && key_codes(device.keys->0).contains(325)
            &&& device.axes is Some && axis_codes(device.axes->0).contains(0) && axis_codes(
                device.axes->0,
            ).contains(1)
            &&& !(device.name is Some && device.name->0@ == "kanata"@)
        },
{
}

/// Candidates are found one device at a time, in order: each device that qualifies gives one
/// candidate with its path and its name, or the name unknown, and any other gives none.
pub proof fn law_each_device_is_looked_at<'a>(
    first: Seq<DeviceInfo<'a>>,
    second: Seq<DeviceInfo<'a>>,
    device: DeviceInfo<'a>,
)
    ensures
        touchpads(first + second) == touchpads(first) + touchpads(second),
        touchpads(Seq::<DeviceInfo<'a>>::empty()).len() == 0,
        touchpads(seq![device]).len() == if device.qualifies() {
            1nat
        } else {
            0nat
        },
        device.qualifies() ==> touchpads(seq![device])[0].0 == device.path@,
        device.qualifies() && device.name is Some ==> touchpads(seq![device])[0].1
            == device.name->0@,
        device.qualifies() && device.name is None ==> touchpads(seq![device])[0].1 == "unknown"@,
{
    let pred = |d: DeviceInfo<'a>| d.qualifies();
    let describe = |d: DeviceInfo<'a>| d.description();
    Seq::filter_distributes_over_add(first, second, pred);
    assert((first.filter(pred) + second.filter(pred)).map_values(describe) == first.filter(
        pred,
    ).map_values(describe) + second.filter(pred).map_values(describe));
    lemma_touchpads_step(seq![device], 0);
    assert(seq![device].take(1) == seq![device]);
    assert(seq![device].take(0) == Seq::<DeviceInfo<'a>>::empty());
    reveal(Seq::filter);
    assert(touchpads(Seq::<DeviceInfo<'a>>::empty()) == Seq::<(Seq<char>, Seq<char>)>::empty());
}

/// A list of candidates has a line for each, in order: two spaces, the path, a dash, and the name in
/// quotes.
pub proof fn law_each_candidate_has_its_line(
    first: Seq<(Seq<char>, Seq<char>)>,
    second: Seq<(Seq<char>, Seq<char>)>,
    path: Seq<char>,
    name: Seq<char>,
)
    ensures
        listing(first + second) == listing(first) + listing(second),
        listing(Seq::<(Seq<char>, Seq<char>)>::empty()).len() == 0,
        listing(seq![(path, name)]) == "  "@ + path + " — "@ + debug_form(name) + "\n"@,
        shown((path, name)) == path + " — "@ + debug_form(name),
    decreases second.len(),
{
    if second.len() == 0 {
        assert(first + second == first);
    } else {
        law_each_candidate_has_its_line(first, second.drop_last(), path, name);
        assert((first + second).drop_last() == first + second.drop_last());
        assert((first + second).last() == second.last());
    }
    let one = seq![(path, name)];
    reveal_with_fuel(listing, 2);
    assert(one.drop_last() == Seq::<(Seq<char>, Seq<char>)>::empty());
    assert(listing(one) == "  "@ + path + " — "@ + debug_form(name) + "\n"@);
}

/// The list of devices has the lines of all candidates between a heading and a hint; without a
/// candidate it says what may be wrong.
pub proof fn law_device_list_has_all_lines(descriptions: Seq<(Seq<char>, Seq<char>)>)
    ensures
        descriptions.len() > 0 ==> device_list(descriptions) == "Touchpad devices found:\n\n"@
            + listing(descriptions) + "\nUse: glide --device <path>\n"@,
        descriptions.len() == 0 ==> device_list(descriptions)
            == "No touchpad devices found.\n\nMake sure you have permission to read /dev/input/event* (try running with sudo).\n"@,
{
}

/// An error of detection says what was found and what to do: with several touchpads it has their
/// lines and asks for one, without any it says what may be wrong.
pub proof fn law_detect_error_says_what_to_do(error: DetectError)
    ensures
        error matches DetectError::SeveralFound(lines) ==> error.text()
            == "Multiple touchpad devices found:\n\n"@ + lines@
            + "\nPlease specify one: glide --device <path>"@,
        error is NoneFound ==> error.text()
            == "No touchpad device found.\nMake sure you have permission to read /dev/input/event* (try running with sudo).\nOr specify a device explicitly: glide --device /dev/input/eventX\nTo list candidates: glide --list-devices"@,
{
}

/// A candidate is described by its own path and name, in the order of the candidates.
pub proof fn law_candidates_are_described_in_order(candidates: Seq<TouchpadCandidate>)
    ensures
        descriptions(candidates).len() == candidates.len(),
        forall|i: int|
            0 <= i < candidates.len() ==> (#[trigger] descriptions(candidates)[i]).0
                == candidates[i].path@ && descriptions(candidates)[i].1 == candidates[i].name@,
{
}

} // verus!
