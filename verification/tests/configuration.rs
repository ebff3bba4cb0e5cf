//! Keys, modifiers and what they are bound to.
use alice_wm::config::{
    is_key_name, modifier_at, parse_keystring, plain_action_at, tag_argument, Action, Config,
    ConfigError, KeyPress, KeyboardLayout, ModMask, ModifiersState, OutputOptions, OutputPosition,
    TilingConfig, Transform, DEFAULT_GAP, KEY_DOWN, KEY_LEFT, KEY_RETURN, KEY_RIGHT, KEY_UP,
    VT_SWITCH_1, VT_SWITCH_12,
};
use alice_wm::gesture::GestureDirection;
use alice_wm::output::TagId;
use alice_wm::scalar::Scalar;

fn scalar(v: f64) -> Scalar {
    Scalar { bits: v.to_bits() }
}

fn mask(logo: bool, ctrl: bool, alt: bool, shift: bool) -> ModMask {
    ModMask { logo, ctrl, alt, shift }
}

fn alt(keysym: u32) -> KeyPress {
    KeyPress { modifiers: mask(false, false, true, false), keysym }
}

fn alt_shift(keysym: u32) -> KeyPress {
    KeyPress { modifiers: mask(false, false, true, true), keysym }
}

#[test]
fn key_constants_are_the_keysyms() {
    assert_eq!(KEY_RETURN, xkeysym::Keysym::Return.raw());
    assert_eq!(KEY_LEFT, xkeysym::Keysym::Left.raw());
    assert_eq!(KEY_UP, xkeysym::Keysym::Up.raw());
    assert_eq!(KEY_RIGHT, xkeysym::Keysym::Right.raw());
    assert_eq!(KEY_DOWN, xkeysym::Keysym::Down.raw());
    assert_eq!(VT_SWITCH_1, xkeysym::Keysym::XF86_Switch_VT_1.raw());
    assert_eq!(VT_SWITCH_12, xkeysym::Keysym::XF86_Switch_VT_12.raw());
}

#[test]
fn single_characters_are_their_keysyms() {
    assert_eq!(parse_keystring("j"), 0x6a);
    assert_eq!(parse_keystring("1"), 0x31);
    assert_eq!(parse_keystring(" "), 0x20);
    assert_eq!(parse_keystring("~"), 0x7e);
    assert_eq!(parse_keystring("\u{e9}"), 0xe9);
    for c in (0x20..0x7fu8).chain(0xa0..=0xffu8) {
        let c = c as char;
        assert_eq!(parse_keystring(&c.to_string()), c as u32);
    }
}

#[test]
fn other_characters_have_keysyms_of_their_own() {
    // Outside Latin-1 the keysym is not the code point.
    let snowman = parse_keystring("\u{2603}");
    assert_eq!(snowman, xkeysym::Keysym::from_char('\u{2603}').raw());
    assert_ne!(snowman, 0x2603);
    let omega = parse_keystring("\u{3c9}");
    assert_eq!(omega, xkeysym::Keysym::from_char('\u{3c9}').raw());
    assert_ne!(omega, 0x3c9);
}

#[test]
fn named_keys_are_known() {
    assert_eq!(parse_keystring("Return"), KEY_RETURN);
    assert_eq!(parse_keystring("Left"), KEY_LEFT);
    assert_eq!(parse_keystring("Right"), KEY_RIGHT);
    assert_eq!(parse_keystring("Up"), KEY_UP);
    assert_eq!(parse_keystring("Down"), KEY_DOWN);
    for name in ["a", "Return", "Left", "Right", "Up", "Down", "\u{20ac}"] {
        assert!(is_key_name(name));
    }
    for name in ["", "ab", "return", "Escape"] {
        assert!(!is_key_name(name));
    }
}

#[test]
fn modifiers_are_bits() {
    assert_eq!(ModMask::empty().bits(), 0);
    assert_eq!(mask(true, false, false, false).bits(), 0b1);
    assert_eq!(mask(false, true, false, false).bits(), 0b10);
    assert_eq!(mask(false, false, true, false).bits(), 0b100);
    assert_eq!(mask(false, false, false, true).bits(), 0b1000);
    let both = mask(true, false, false, false).union(mask(false, false, false, true));
    assert_eq!(both.bits(), 0b1001);
    assert!(both.contains(mask(true, false, false, false)));
    assert!(both.contains(ModMask::empty()));
    assert!(!both.contains(mask(false, true, false, false)));
    assert_eq!(mask(true, true, true, true).describe(), "SCASh");
    assert_eq!(mask(false, true, false, true).describe(), "CSh");
    assert_eq!(ModMask::empty().describe(), "");
}

#[test]
fn modifier_names_are_listed() {
    let mut names = Vec::new();
    let mut i = 0;
    while let Some((name, mask)) = modifier_at(i) {
        names.push((name, mask.bits()));
        i += 1;
    }
    assert_eq!(names, vec![("super", 1), ("ctrl", 2), ("alt", 4), ("shift", 8), ("none", 0)]);
}

#[test]
fn plain_actions_are_listed() {
    let mut names = Vec::new();
    while let Some((name, _)) = plain_action_at(names.len()) {
        names.push(name);
    }
    assert_eq!(names.len(), 16);
    assert_eq!(plain_action_at(0), Some(("quit", Action::Quit)));
    assert_eq!(plain_action_at(2), Some(("reload_config", Action::ReloadConfig)));
    assert_eq!(plain_action_at(15), Some(("focus_output_down", Action::FocusOutputDown)));
    assert_eq!(plain_action_at(16), None);
}

#[test]
fn press_takes_the_held_modifiers_only() {
    let mods = ModifiersState {
        ctrl: true,
        alt: false,
        shift: false,
        caps_lock: true,
        logo: true,
        num_lock: true,
    };
    let press = KeyPress::from(&mods, 0x61);
    assert_eq!(press.keysym, 0x61);
    assert_eq!(press.modifiers, mask(true, true, false, false));
}

#[test]
fn tags_are_counted_from_one() {
    assert_eq!(tag_argument(1), Ok(TagId(0)));
    assert_eq!(tag_argument(9), Ok(TagId(8)));
    assert_eq!(tag_argument(0), Err(ConfigError::TagNotPositive));
    assert_eq!(tag_argument(-4), Err(ConfigError::TagNotPositive));
    assert_eq!(tag_argument(0x1_0000_0000), Ok(TagId(u32::MAX)));
    assert_eq!(tag_argument(0x1_0000_0001), Ok(TagId(0)));
}

#[test]
fn output_positions_take_options() {
    let plain = OutputPosition::configured(10, 20, None).unwrap();
    assert_eq!((plain.x, plain.y, plain.transform), (10, 20, Transform::Normal));
    assert_eq!((plain.scale, plain.refresh), (None, None));
    let cases = [
        (None, None, Transform::Normal),
        (Some(0), Some(true), Transform::Flipped),
        (Some(90), Some(false), Transform::Rotated90),
        (Some(90), Some(true), Transform::Flipped90),
        (Some(180), None, Transform::Rotated180),
        (Some(180), Some(true), Transform::Flipped180),
        (Some(270), None, Transform::Rotated270),
        (Some(270), Some(true), Transform::Flipped270),
    ];
    for (rotate, flipped, transform) in cases {
        let options = OutputOptions {
            rotate,
            flipped,
            scale: Some(scalar(1.5)),
            refresh: Some(scalar(144.0)),
        };
        let position = OutputPosition::configured(1, 2, Some(options)).unwrap();
        assert_eq!(position.transform, transform);
        assert_eq!(position.scale, Some(scalar(1.5)));
        assert_eq!(position.refresh, Some(scalar(144.0)));
    }
    let options = OutputOptions { rotate: Some(45), flipped: None, scale: None, refresh: None };
    assert_eq!(
        OutputPosition::configured(1, 2, Some(options)).err(),
        Some(ConfigError::BadRotation(45)),
    );
}

#[test]
fn blank_configuration_binds_nothing() {
    let config = Config::new();
    assert!(config.get_keypress(&alt(0x6a)).is_none());
    assert!(config.get_lock_keypress(&alt(0x6a)).is_none());
    assert!(config.get_gesture(3, GestureDirection::Left).is_none());
    assert!(config.get_output_position("DP-1").is_none());
    assert_eq!(config.gap_size(), DEFAULT_GAP);
    assert_eq!(config.gap_size(), 15);
    assert!(config.autostarts().is_empty());
    assert!(config.execute_actions().is_empty());
    assert_eq!(config.tiling().master_ratio, scalar(0.5));
    assert_eq!(config.keyboard_layout().layout, "");
    assert_eq!(config.keyboard_layout().options, None);
}

#[test]
fn default_configuration_binds_the_usual_keys() {
    let config = Config::default();
    let char_key = |c: char| c as u32;
    let cases = [
        (alt(char_key('j')), Action::FocusDownStack),
        (alt(char_key('k')), Action::FocusUpStack),
        (alt(char_key('u')), Action::FocusPreviousTag),
        (alt(char_key('i')), Action::FocusNextTag),
        (alt(char_key('q')), Action::Close),
        (alt(char_key('r')), Action::ReloadConfig),
        (alt_shift(char_key('j')), Action::MoveDownStack),
        (alt_shift(char_key('k')), Action::MoveUpStack),
        (alt_shift(char_key('u')), Action::MovePreviousTag),
        (alt_shift(char_key('i')), Action::MoveNextTag),
        (alt_shift(char_key('q')), Action::Quit),
        (alt(char_key('t')), Action::SetLayout(String::from("MasterStack"))),
        (alt(char_key('f')), Action::FullScreen),
        (alt(KEY_RETURN), Action::Spawn(String::from("alacritty"))),
        (alt(KEY_LEFT), Action::FocusOutputLeft),
        (alt(KEY_RIGHT), Action::FocusOutputRight),
        (alt(KEY_UP), Action::FocusOutputUp),
        (alt(KEY_DOWN), Action::FocusOutputDown),
    ];
    for (press, action) in cases {
        assert_eq!(config.get_keypress(&press), Some(&action));
    }
    for digit in 0..9u32 {
        assert_eq!(config.get_keypress(&alt(0x31 + digit)), Some(&Action::FocusTag(TagId(digit))));
        assert_eq!(
            config.get_keypress(&alt_shift(0x31 + digit)),
            Some(&Action::MoveToTag(TagId(digit))),
        );
    }
    assert_eq!(config.get_keypress(&alt(char_key('0'))), None);
    assert_eq!(config.get_keypress(&alt_shift(KEY_RETURN)), None);
    let bare = KeyPress { modifiers: ModMask::empty(), keysym: char_key('j') };
    assert_eq!(config.get_keypress(&bare), None);
}

#[test]
fn last_binding_wins() {
    let mut config = Config::new();
    config.insert_keypress(alt(1), Action::Quit);
    config.insert_keypress(alt(2), Action::Close);
    config.insert_keypress(alt(1), Action::FullScreen);
    assert_eq!(config.get_keypress(&alt(1)), Some(&Action::FullScreen));
    assert_eq!(config.get_keypress(&alt(2)), Some(&Action::Close));
    assert_eq!(config.get_lock_keypress(&alt(1)), None);
    config.insert_lock_keypress(alt(1), Action::Spawn(String::from("lock")));
    assert_eq!(config.get_lock_keypress(&alt(1)), Some(&Action::Spawn(String::from("lock"))));
    config.insert_gesture(3, GestureDirection::Left, Action::FocusNextTag);
    config.insert_gesture(4, GestureDirection::Left, Action::MoveUpStack);
    assert_eq!(config.get_gesture(3, GestureDirection::Left), Some(&Action::FocusNextTag));
    assert_eq!(config.get_gesture(4, GestureDirection::Left), Some(&Action::MoveUpStack));
    assert_eq!(config.get_gesture(3, GestureDirection::Right), None);
}

#[test]
fn settings_are_remembered() {
    let mut config = Config::new();
    config.set_output_position(String::from("DP-1"), OutputPosition::new(1, 2));
    config.set_output_position(String::from("DP-2"), OutputPosition::new(3, 4));
    config.set_output_position(String::from("DP-1"), OutputPosition::new(5, 6));
    let placed = config.get_output_position("DP-1").unwrap();
    assert_eq!((placed.x, placed.y), (5, 6));
    let placed = config.get_output_position("DP-2").unwrap();
    assert_eq!((placed.x, placed.y), (3, 4));
    assert!(config.get_output_position("HDMI-A-1").is_none());
    let turned = |degrees: i32| {
        Some(OutputOptions { rotate: Some(degrees), flipped: None, scale: None, refresh: None })
    };
    assert_eq!(config.place_output(String::from("DP-3"), 7, 8, turned(90)), Ok(()));
    let placed = config.get_output_position("DP-3").unwrap();
    assert_eq!((placed.x, placed.y, placed.transform), (7, 8, Transform::Rotated90));
    assert_eq!(
        config.place_output(String::from("DP-3"), 9, 9, turned(91)),
        Err(ConfigError::BadRotation(91)),
    );
    let placed = config.get_output_position("DP-3").unwrap();
    assert_eq!((placed.x, placed.y), (7, 8));
    config.set_gap_size(3);
    assert_eq!(config.gap_size(), 3);
    let tiling = TilingConfig {
        master_ratio: scalar(0.7),
        tablet_hide_minimized: true,
        right_handed: true,
    };
    config.set_tiling(tiling);
    assert_eq!(config.tiling(), tiling);
    config.push_autostart(String::from("bar"));
    config.push_autostart(String::from("notifier"));
    assert_eq!(config.autostarts(), &vec![String::from("bar"), String::from("notifier")]);
    config.push_execute_action(Action::FullScreen);
    config.push_execute_action(Action::FocusNextTag);
    assert_eq!(config.execute_actions(), vec![Action::FullScreen, Action::FocusNextTag]);
    config.set_keyboard_layout(KeyboardLayout {
        rules: String::new(),
        model: String::new(),
        layout: String::from("de"),
        variant: String::new(),
        options: Some(String::from("compose:caps")),
    });
    assert_eq!(config.keyboard_layout().layout, "de");
    assert_eq!(config.keyboard_layout().options, Some(String::from("compose:caps")));
}
