use evdev::{AbsoluteAxisType, AttributeSet, Key};
use glide::detect::{
    autodetect, find_touchpads, is_touchpad, list_devices, shown_as, DetectError, DeviceInfo,
    TouchpadCandidate,
};

fn keys(codes: &[Key]) -> AttributeSet<Key> {
    codes.iter().copied().collect()
}

fn axes(codes: &[AbsoluteAxisType]) -> AttributeSet<AbsoluteAxisType> {
    codes.iter().copied().collect()
}

fn candidate(path: &str, name: &str) -> TouchpadCandidate {
    TouchpadCandidate { path: path.to_string(), name: name.to_string() }
}

#[test]
fn touchpad_has_finger_and_both_axes() {
    let finger = keys(&[Key::BTN_LEFT, Key::BTN_TOOL_FINGER]);
    let no_finger = keys(&[Key::BTN_LEFT, Key::BTN_TOOL_PEN]);
    let xy = axes(&[AbsoluteAxisType::ABS_X, AbsoluteAxisType::ABS_Y]);
    let x = axes(&[AbsoluteAxisType::ABS_X, AbsoluteAxisType::ABS_MT_POSITION_Y]);
    let y = axes(&[AbsoluteAxisType::ABS_Y]);
    assert!(is_touchpad(Some("pad"), Some(&finger), Some(&xy)));
    assert!(is_touchpad(None, Some(&finger), Some(&xy)));
    assert!(!is_touchpad(Some("kanata"), Some(&finger), Some(&xy)));
    assert!(is_touchpad(Some("kanata pad"), Some(&finger), Some(&xy)));
    assert!(!is_touchpad(Some("pad"), Some(&no_finger), Some(&xy)));
    assert!(!is_touchpad(Some("pad"), Some(&finger), Some(&x)));
    assert!(!is_touchpad(Some("pad"), Some(&finger), Some(&y)));
    assert!(!is_touchpad(Some("pad"), None, Some(&xy)));
    assert!(!is_touchpad(Some("pad"), Some(&finger), None));
}

#[test]
fn touchpads_are_found_in_order() {
    let finger = keys(&[Key::BTN_TOOL_FINGER]);
    let letters = keys(&[Key::KEY_A]);
    let xy = axes(&[AbsoluteAxisType::ABS_X, AbsoluteAxisType::ABS_Y]);
    let device = |path: &str, name: Option<&'static str>| DeviceInfo {
        path: path.to_string(),
        name,
        keys: Some(&*finger),
        axes: Some(&*xy),
    };
    let mut keyboard = device("/dev/input/event1", Some("keyboard"));
    keyboard.keys = Some(&*letters);
    let found = find_touchpads(&vec![
        device("/dev/input/event0", Some("pad")),
        keyboard,
        device("/dev/input/event2", Some("kanata")),
        device("/dev/input/event3", None),
    ]);
    assert_eq!(found.len(), 2);
    assert_eq!((found[0].path.as_str(), found[0].name.as_str()), ("/dev/input/event0", "pad"));
    assert_eq!((found[1].path.as_str(), found[1].name.as_str()), ("/dev/input/event3", "unknown"));
}

#[test]
fn candidates_show_path_and_quoted_name() {
    assert_eq!(candidate("/dev/input/event4", "My Pad").display(), "/dev/input/event4 — \"My Pad\"");
    assert_eq!(candidate("p", "a\"b\n").display(), "p — \"a\\\"b\\n\"");
}

#[test]
fn one_candidate_is_chosen() {
    let only = vec![candidate("/dev/input/event4", "pad")];
    assert_eq!(autodetect(&only).unwrap(), "/dev/input/event4");
}

#[test]
fn no_candidate_is_an_error() {
    let error = autodetect(&vec![]).unwrap_err();
    assert!(matches!(error, DetectError::NoneFound));
    assert_eq!(
        error.message(),
        "No touchpad device found.\n\
         Make sure you have permission to read /dev/input/event* (try running with sudo).\n\
         Or specify a device explicitly: glide --device /dev/input/eventX\n\
         To list candidates: glide --list-devices"
    );
}

#[test]
fn several_candidates_are_an_error() {
    let several = vec![candidate("/dev/a", "A"), candidate("/dev/b", "B")];
    let error = autodetect(&several).unwrap_err();
    assert!(matches!(error, DetectError::SeveralFound(_)));
    assert_eq!(
        error.message(),
        "Multiple touchpad devices found:\n\n  /dev/a — \"A\"\n  /dev/b — \"B\"\n\n\
         Please specify one: glide --device <path>"
    );
}

#[test]
fn devices_are_listed() {
    assert_eq!(
        list_devices(&vec![]),
        "No touchpad devices found.\n\n\
         Make sure you have permission to read /dev/input/event* (try running with sudo).\n"
    );
    assert_eq!(
        list_devices(&vec![candidate("/dev/a", "A"), candidate("/dev/b", "B")]),
        "Touchpad devices found:\n\n  /dev/a — \"A\"\n  /dev/b — \"B\"\n\n\
         Use: glide --device <path>\n"
    );
}

#[test]
fn path_and_quoted_name_are_joined_as_they_are() {
    assert_eq!(shown_as("/dev/input/event4", "\"My Pad\""), "/dev/input/event4 — \"My Pad\"");
    assert_eq!(shown_as("p", "a\"b"), "p — a\"b");
}
