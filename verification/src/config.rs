//! Key bindings, gestures, output positions and the actions they name.
use vstd::prelude::*;

use crate::gesture::{GestureDirection, Swipe};
use crate::output::TagId;
use crate::scalar::Scalar;
use crate::table::{filed, lemma_files_at, lemma_no_key, lookup, Key, Table};

verus! {

/// What a key press or a gesture can make the compositor do.
#[derive(Debug, PartialEq, Eq)]
pub enum Action {
    Quit,
    ReloadConfig,
    Close,
    FullScreen,
    Spawn(String),
    FocusTag(TagId),
    MoveToTag(TagId),
    FocusNextTag,
    FocusPreviousTag,
    MoveNextTag,
    MovePreviousTag,
    SetLayout(String),
    FocusDownStack,
    FocusUpStack,
    MoveDownStack,
    MoveUpStack,
    FocusOutputLeft,
    FocusOutputRight,
    FocusOutputUp,
    FocusOutputDown,
    MoveOutputLeft,
    MoveOutputRight,
    MoveOutputUp,
    MoveOutputDown,
    IncrementMasterRatio(Scalar),
    DecrementMasterRatio(Scalar),
    HideTabletWindows,
    ShowTabletWindows,
    ToggleTabletWindows,
    MakeRightHanded,
    MakeLeftHanded,
    FlipHandedness,
}

impl View for Action {
    type V = Action;

    open spec fn view(&self) -> Action {
        *self
    }
}

impl Clone for Action {
    fn clone(&self) -> (r: Self)
        ensures
            r == *self,
    {
        match self {
            Action::Quit => Action::Quit,
            Action::ReloadConfig => Action::ReloadConfig,
            Action::Close => Action::Close,
            Action::FullScreen => Action::FullScreen,
            Action::Spawn(command) => Action::Spawn(command.clone()),
            Action::FocusTag(tag) => Action::FocusTag(*tag),
            Action::MoveToTag(tag) => Action::MoveToTag(*tag),
            Action::FocusNextTag => Action::FocusNextTag,
            Action::FocusPreviousTag => Action::FocusPreviousTag,
            Action::MoveNextTag => Action::MoveNextTag,
            Action::MovePreviousTag => Action::MovePreviousTag,
            Action::SetLayout(layout) => Action::SetLayout(layout.clone()),
            Action::FocusDownStack => Action::FocusDownStack,
            Action::FocusUpStack => Action::FocusUpStack,
            Action::MoveDownStack => Action::MoveDownStack,
            Action::MoveUpStack => Action::MoveUpStack,
            Action::FocusOutputLeft => Action::FocusOutputLeft,
            Action::FocusOutputRight => Action::FocusOutputRight,
            Action::FocusOutputUp => Action::FocusOutputUp,
            Action::FocusOutputDown => Action::FocusOutputDown,
            Action::MoveOutputLeft => Action::MoveOutputLeft,
            Action::MoveOutputRight => Action::MoveOutputRight,
            Action::MoveOutputUp => Action::MoveOutputUp,
            Action::MoveOutputDown => Action::MoveOutputDown,
            Action::IncrementMasterRatio(amount) => Action::IncrementMasterRatio(*amount),
            Action::DecrementMasterRatio(amount) => Action::DecrementMasterRatio(*amount),
            Action::HideTabletWindows => Action::HideTabletWindows,
            Action::ShowTabletWindows => Action::ShowTabletWindows,
            Action::ToggleTabletWindows => Action::ToggleTabletWindows,
            Action::MakeRightHanded => Action::MakeRightHanded,
            Action::MakeLeftHanded => Action::MakeLeftHanded,
            Action::FlipHandedness => Action::FlipHandedness,
        }
    }
}

/// A set of modifier keys.
#[derive(Debug, Clone, Copy, Hash, PartialEq, Eq, Structural)]
pub struct ModMask {
    pub logo: bool,
    pub ctrl: bool,
    pub alt: bool,
    pub shift: bool,
}

impl ModMask {
    /// The bit pattern: bit 0 for super, 1 for ctrl, 2 for alt, 3 for shift.
    pub open spec fn pattern(self) -> int {
        (if self.logo {
            1int
        } else {
            0
        }) + (if self.ctrl {
            2int
        } else {
            0
        }) + (if self.alt {
            4int
        } else {
            0
        }) + (if self.shift {
            8int
        } else {
            0
        })
    }

    pub open spec fn nothing() -> ModMask {
        ModMask { logo: false, ctrl: false, alt: false, shift: false }
    }

    pub fn empty() -> (r: Self)
        ensures
            r == ModMask::nothing(),
            r.pattern() == 0,
    {
        ModMask { logo: false, ctrl: false, alt: false, shift: false }
    }

    pub fn bits(&self) -> (r: u8)
        ensures
            r == self.pattern(),
            r < 16,
    {
        let mut bits: u8 = 0;
        if self.logo {
            bits += 1;
        }
        if self.ctrl {
            bits += 2;
        }
        if self.alt {
            bits += 4;
        }
        if self.shift {
            bits += 8;
        }
        bits
    }

    /// Whether every modifier of `other` is in this set.
    pub fn contains(&self, other: ModMask) -> (r: bool)
        ensures
            r == ((other.logo ==> self.logo) && (other.ctrl ==> self.ctrl) && (other.alt
                ==> self.alt) && (other.shift ==> self.shift)),
    {
        (!other.logo || self.logo) && (!other.ctrl || self.ctrl) && (!other.alt || self.alt) && (
        !other.shift || self.shift)
    }

    /// The modifiers of both sets.
    pub fn union(&self, other: ModMask) -> (r: ModMask)
        ensures
            r == (ModMask {
                logo: self.logo || other.logo,
                ctrl: self.ctrl || other.ctrl,
                alt: self.alt || other.alt,
                shift: self.shift || other.shift,
            }),
    {
        ModMask {
            logo: self.logo || other.logo,
            ctrl: self.ctrl || other.ctrl,
            alt: self.alt || other.alt,
            shift: self.shift || other.shift,
        }
    }

    /// What [`ModMask::describe`] yields.
    pub open spec fn letters(self) -> Seq<char> {
        (if self.logo {
            "S"@
        } else {
            Seq::empty()
        }) + (if self.ctrl {
            "C"@
        } else {
            Seq::empty()
        }) + (if self.alt {
            "A"@
        } else {
            Seq::empty()
        }) + (if self.shift {
            "Sh"@
        } else {
            Seq::empty()
        })
    }

    /// `S` for super, `C` for ctrl, `A` for alt, `Sh` for shift, in that
    /// order.
    pub fn describe(&self) -> (r: String)
        ensures
            r@ == self.letters(),
    {
        let mut text = String::new();
        if self.logo {
            text.append("S");
        }
        if self.ctrl {
            text.append("C");
        }
        if self.alt {
            text.append("A");
        }
        if self.shift {
            text.append("Sh");
        }
        assert(text@ =~= self.letters());
        text
    }
}

/// The state of the keyboard's modifiers.
#[derive(Debug, Clone, Copy, PartialEq, Eq, Structural)]
pub struct ModifiersState {
    pub ctrl: bool,
    pub alt: bool,
    pub shift: bool,
    pub caps_lock: bool,
    pub logo: bool,
    pub num_lock: bool,
}

/// A key together with the modifiers held down.
#[derive(Debug, Clone, Copy, Hash, PartialEq, Eq, Structural)]
pub struct KeyPress {
    pub modifiers: ModMask,
    pub keysym: u32,
}

impl KeyPress {
    /// The press of `sym` while `mods` are in effect; locks do not count.
    pub fn from(mods: &ModifiersState, sym: u32) -> (press: Self)
        ensures
            press == (KeyPress {
                modifiers: ModMask {
                    logo: mods.logo,
                    ctrl: mods.ctrl,
                    alt: mods.alt,
                    shift: mods.shift,
                },
                keysym: sym,
            }),
    {
        KeyPress {
            modifiers: ModMask {
                logo: mods.logo,
                ctrl: mods.ctrl,
                alt: mods.alt,
                shift: mods.shift,
            },
            keysym: sym,
        }
    }
}

impl Key for KeyPress {
    open spec fn packed(self) -> u64 {
        (self.modifiers.pattern() * 0x1_0000_0000 + self.keysym) as u64
    }

    proof fn lemma_packed_injective(a: Self, b: Self) {
    }

    fn pack(&self) -> (code: u64) {
        self.modifiers.bits() as u64 * 0x1_0000_0000 + self.keysym as u64
    }
}

/// The keysyms of the keys that have no character of their own.
pub const KEY_RETURN: u32 = 0xff0d;

pub const KEY_LEFT: u32 = 0xff51;

pub const KEY_UP: u32 = 0xff52;

pub const KEY_RIGHT: u32 = 0xff53;

pub const KEY_DOWN: u32 = 0xff54;

/// The first and the last of the keysyms that switch virtual terminals.
pub const VT_SWITCH_1: u32 = 0x1008_FE01;

pub const VT_SWITCH_12: u32 = 0x1008_FE0C;

/// The keysym that [`xkeysym::Keysym::from_char`] gives for a character.
pub uninterp spec fn keysym_of_char(c: char) -> u32;

/// `c` is a printable character of Latin-1.
pub open spec fn is_latin(c: char) -> bool {
    0x20 <= c as u32 <= 0x7e || 0xa0 <= c as u32 <= 0xff
}

/// Calls [`xkeysym::Keysym::from_char`]: the keysym of a character. The
/// keysym of a printable Latin-1 character is its code point; what it is for
/// any other character is fixed by a table and not said here.
#[verifier::external_body]
fn keysym_from_char(c: char) -> (sym: u32)
    ensures
        sym == keysym_of_char(c),
        is_latin(c) ==> sym == c as u32,
{
    xkeysym::Keysym::from_char(c).raw()
}

/// `key` names a key: it is a single character, or one of the five names.
pub open spec fn names_key(key: Seq<char>) -> bool {
    ||| key.len() == 1
    ||| key == "Return"@
    ||| key == "Left"@
    ||| key == "Right"@
    ||| key == "Up"@
    ||| key == "Down"@
}

/// The keysym of the key that `key` names.
pub open spec fn keysym_named(key: Seq<char>) -> u32 {
    if key.len() == 1 {
        keysym_of_char(key[0])
    } else if key == "Return"@ {
        KEY_RETURN
    } else if key == "Left"@ {
        KEY_LEFT
    } else if key == "Right"@ {
        KEY_RIGHT
    } else if key == "Up"@ {
        KEY_UP
    } else {
        KEY_DOWN
    }
}

/// Return and the four arrows are found under their names.
pub proof fn lemma_keys_named(key: Seq<char>)
    ensures
        key == "Return"@ ==> names_key(key) && keysym_named(key) == 0xff0d,
        key == "Left"@ ==> names_key(key) && keysym_named(key) == 0xff51,
        key == "Up"@ ==> names_key(key) && keysym_named(key) == 0xff52,
        key == "Right"@ ==> names_key(key) && keysym_named(key) == 0xff53,
        key == "Down"@ ==> names_key(key) && keysym_named(key) == 0xff54,
        key.len() == 1 ==> names_key(key) && keysym_named(key) == keysym_of_char(key[0]),
        key.len() == 0 || key.len() > 6 || key.len() == 3 ==> !names_key(key),
{
    reveal_strlit("Return");
    reveal_strlit("Left");
    reveal_strlit("Right");
    reveal_strlit("Up");
    reveal_strlit("Down");
    if key.len() == 4 {
        assert(key[0] == 'L' || key[0] == 'D' || !names_key(key));
        assert("Left"@[0] == 'L');
        assert("Down"@[0] == 'D');
    }
}

/// Whether `key` names a key.
pub fn is_key_name(key: &str) -> (r: bool)
    ensures
        r == names_key(key@),
{
    let name = key.to_owned();
    key.unicode_len() == 1 || name == "Return".to_owned() || name == "Left".to_owned() || name
        == "Right".to_owned() || name == "Up".to_owned() || name == "Down".to_owned()
}

/// The keysym of the key that `key` names.
pub fn parse_keystring(key: &str) -> (sym: u32)
    requires
        names_key(key@),
    ensures
        sym == keysym_named(key@),
        key@.len() == 1 && is_latin(key@[0]) ==> sym == key@[0] as u32,
        key@ == "Return"@ ==> sym == 0xff0d,
        key@ == "Left"@ ==> sym == 0xff51,
        key@ == "Up"@ ==> sym == 0xff52,
        key@ == "Right"@ ==> sym == 0xff53,
        key@ == "Down"@ ==> sym == 0xff54,
{
    proof {
        lemma_keys_named(key@);
    }
    if key.unicode_len() == 1 {
        return keysym_from_char(key.get_char(0));
    }
    let name = key.to_owned();
    if name == "Return".to_owned() {
        KEY_RETURN
    } else if name == "Left".to_owned() {
        KEY_LEFT
    } else if name == "Right".to_owned() {
        KEY_RIGHT
    } else if name == "Up".to_owned() {
        KEY_UP
    } else {
        KEY_DOWN
    }
}

/// How an output is turned.
#[derive(Debug, Clone, Copy, PartialEq, Eq, Structural)]
pub enum Transform {
    Normal,
    Rotated90,
    Rotated180,
    Rotated270,
    Flipped,
    Flipped90,
    Flipped180,
    Flipped270,
}

/// What is wrong with a value in the configuration.
#[derive(Debug, Clone, Copy, PartialEq, Eq, Structural)]
pub enum ConfigError {
    /// Tags are counted from one.
    TagNotPositive,
    /// An output can be rotated by 0, 90, 180 or 270 degrees only.
    BadRotation(i32),
}

/// Where the user wants a named output, and how.
#[derive(Debug, Clone, Copy)]
pub struct OutputPosition {
    pub x: i32,
    pub y: i32,
    pub transform: Transform,
    /// The fractional scale factor; the backend's default if there is none.
    pub scale: Option<Scalar>,
    /// The refresh rate in Hz; the preferred mode's if there is none.
    pub refresh: Option<Scalar>,
}

/// What can be said about an output besides where it is.
#[derive(Debug, Clone, Copy)]
pub struct OutputOptions {
    pub rotate: Option<i32>,
    pub flipped: Option<bool>,
    pub scale: Option<Scalar>,
    pub refresh: Option<Scalar>,
}

/// The transform for a rotation in degrees and a flip.
pub open spec fn transform_of(degrees: int, flipped: bool) -> Option<Transform> {
    if degrees == 0 {
        Some(
            if flipped {
                Transform::Flipped
            } else {
                Transform::Normal
            },
        )
    } else if degrees == 90 {
        Some(
            if flipped {
                Transform::Flipped90
            } else {
                Transform::Rotated90
            },
        )
    } else if degrees == 180 {
        Some(
            if flipped {
                Transform::Flipped180
            } else {
                Transform::Rotated180
            },
        )
    } else if degrees == 270 {
        Some(
            if flipped {
                Transform::Flipped270
            } else {
                Transform::Rotated270
            },
        )
    } else {
        None
    }
}

/// How many quarter turns a transform makes, and whether it flips.
pub open spec fn quarter_turns(transform: Transform) -> (int, bool) {
    match transform {
        Transform::Normal => (0, false),
        Transform::Rotated90 => (1, false),
        Transform::Rotated180 => (2, false),
        Transform::Rotated270 => (3, false),
        Transform::Flipped => (0, true),
        Transform::Flipped90 => (1, true),
        Transform::Flipped180 => (2, true),
        Transform::Flipped270 => (3, true),
    }
}

/// An output can be turned by up to three quarters, and is turned by as many
/// as its rotation has, flipped or not as was asked for.
pub proof fn lemma_transform_of(degrees: int, flipped: bool)
    ensures
        match transform_of(degrees, flipped) {
            Some(transform) => {
                &&& 0 <= degrees < 360
                &&& 90 * quarter_turns(transform).0 == degrees
                &&& quarter_turns(transform).1 == flipped
            },
            None => degrees % 90 != 0 || degrees < 0 || degrees >= 360,
        },
{
}

/// An output comes to be where it was asked for, with the scale and the rate
/// that were asked for; only a rotation that cannot be had is refused.
pub proof fn lemma_position_asked(x: i32, y: i32, options: Option<OutputOptions>)
    ensures
        ({
            let degrees: int = match options {
                Some(options) => match options.rotate {
                    Some(degrees) => degrees as int,
                    None => 0,
                },
                None => 0,
            };
            match OutputPosition::asked(x, y, options) {
                Ok(position) => {
                    &&& position.x == x
                    &&& position.y == y
                    &&& degrees == 0 || degrees == 90 || degrees == 180 || degrees == 270
                    &&& 90 * quarter_turns(position.transform).0 == degrees
                    &&& quarter_turns(position.transform).1 <==> (options matches Some(options)
                        && options.flipped == Some(true))
                    &&& position.scale == match options {
                        Some(options) => options.scale,
                        None => None,
                    }
                    &&& position.refresh == match options {
                        Some(options) => options.refresh,
                        None => None,
                    }
                },
                Err(error) => {
                    &&& degrees != 0 && degrees != 90 && degrees != 180 && degrees != 270
                    &&& error matches ConfigError::BadRotation(refused) && refused == degrees
                },
            }
        }),
{
}

impl OutputPosition {
    pub fn new(x: i32, y: i32) -> (position: Self)
        ensures
            position == (OutputPosition {
                x,
                y,
                transform: Transform::Normal,
                scale: None,
                refresh: None,
            }),
    {
        OutputPosition { x, y, transform: Transform::Normal, scale: None, refresh: None }
    }

    /// The position that a configuration asks for, or what is wrong with it.
    pub open spec fn asked(x: i32, y: i32, options: Option<OutputOptions>) -> Result<
        OutputPosition,
        ConfigError,
    > {
        match options {
            None => Ok(
                OutputPosition {
                    x,
                    y,
                    transform: Transform::Normal,
                    scale: None,
                    refresh: None,
                },
            ),
            Some(options) => {
                let degrees = match options.rotate {
                    Some(degrees) => degrees,
                    None => 0,
                };
                match transform_of(degrees as int, options.flipped == Some(true)) {
                    Some(transform) => Ok(
                        OutputPosition {
                            x,
                            y,
                            transform,
                            scale: options.scale,
                            refresh: options.refresh,
                        },
                    ),
                    None => Err(ConfigError::BadRotation(degrees)),
                }
            },
        }
    }

    /// The position that a configuration asks for.
    pub fn configured(x: i32, y: i32, options: Option<OutputOptions>) -> (r: Result<
        Self,
        ConfigError,
    >)
        ensures
            r == OutputPosition::asked(x, y, options),
    {
        let mut position = OutputPosition::new(x, y);
        if let Some(options) = options {
            let degrees: i32 = options.rotate.unwrap_or(0);
            let flipped = options.flipped.unwrap_or(false);
            position.transform =
            if degrees == 0 {
                if flipped {
                    Transform::Flipped
                } else {
                    Transform::Normal
                }
            } else if degrees == 90 {
                if flipped {
                    Transform::Flipped90
                } else {
                    Transform::Rotated90
                }
            } else if degrees == 180 {
                if flipped {
                    Transform::Flipped180
                } else {
                    Transform::Rotated180
                }
            } else if degrees == 270 {
                if flipped {
                    Transform::Flipped270
                } else {
                    Transform::Rotated270
                }
            } else {
                return Err(ConfigError::BadRotation(degrees));
            };
            position.scale = options.scale;
            position.refresh = options.refresh;
        }
        Ok(position)
    }
}

/// Tag `number`, where tags are counted from one.
pub fn tag_argument(number: i64) -> (r: Result<TagId, ConfigError>)
    ensures
        number <= 0 ==> r == Err::<TagId, ConfigError>(ConfigError::TagNotPositive),
        number > 0 ==> r == Ok::<TagId, ConfigError>(TagId((number - 1) as u32)),
{
    if number <= 0 {
        return Err(ConfigError::TagNotPositive);
    }
    let tag = (number - 1) as u32;
    Ok(TagId(tag))
}

/// The name of a modifier and the set that it stands for, by their index in
/// the list of modifier names.
pub fn modifier_at(index: usize) -> (r: Option<(&'static str, ModMask)>)
    ensures
        match r {
            Some((name, mask)) => {
                &&& index < 5
                &&& index == 0 ==> name@ == "super"@ && mask == (ModMask {
                    logo: true,
                    ..ModMask::nothing()
                })
                &&& index == 1 ==> name@ == "ctrl"@ && mask == (ModMask {
                    ctrl: true,
                    ..ModMask::nothing()
                })
                &&& index == 2 ==> name@ == "alt"@ && mask == (ModMask {
                    alt: true,
                    ..ModMask::nothing()
                })
                &&& index == 3 ==> name@ == "shift"@ && mask == (ModMask {
                    shift: true,
                    ..ModMask::nothing()
                })
                &&& index == 4 ==> name@ == "none"@ && mask == ModMask::nothing()
            },
            None => index >= 5,
        },
{
    if index == 0 {
        Some(("super", ModMask { logo: true, ctrl: false, alt: false, shift: false }))
    } else if index == 1 {
        Some(("ctrl", ModMask { logo: false, ctrl: true, alt: false, shift: false }))
    } else if index == 2 {
        Some(("alt", ModMask { logo: false, ctrl: false, alt: true, shift: false }))
    } else if index == 3 {
        Some(("shift", ModMask { logo: false, ctrl: false, alt: false, shift: true }))
    } else if index == 4 {
        Some(("none", ModMask::empty()))
    } else {
        None
    }
}

/// The names of the actions that take no argument, with their actions.
pub open spec fn plain_actions() -> Seq<(Seq<char>, Action)> {
    seq![
        ("quit"@, Action::Quit),
        ("close"@, Action::Close),
        ("reload_config"@, Action::ReloadConfig),
        ("full_screen"@, Action::FullScreen),
        ("focus_next_tag"@, Action::FocusNextTag),
        ("focus_previous_tag"@, Action::FocusPreviousTag),
        ("move_next_tag"@, Action::MoveNextTag),
        ("move_previous_tag"@, Action::MovePreviousTag),
        ("focus_down_stack"@, Action::FocusDownStack),
        ("focus_up_stack"@, Action::FocusUpStack),
        ("move_down_stack"@, Action::MoveDownStack),
        ("move_up_stack"@, Action::MoveUpStack),
        ("focus_output_left"@, Action::FocusOutputLeft),
        ("focus_output_right"@, Action::FocusOutputRight),
        ("focus_output_up"@, Action::FocusOutputUp),
        ("focus_output_down"@, Action::FocusOutputDown),
    ]
}

/// The names of the actions that take no argument differ from each other.
proof fn lemma_plain_names(i: int, j: int)
    requires
        0 <= i < j < plain_actions().len(),
    ensures
        plain_actions()[i].0 != plain_actions()[j].0,
        plain_actions()[i].1 != plain_actions()[j].1,
{
    reveal_strlit("quit");
    reveal_strlit("close");
    reveal_strlit("reload_config");
    reveal_strlit("full_screen");
    reveal_strlit("focus_next_tag");
    reveal_strlit("focus_previous_tag");
    reveal_strlit("move_next_tag");
    reveal_strlit("move_previous_tag");
    reveal_strlit("focus_down_stack");
    reveal_strlit("focus_up_stack");
    reveal_strlit("move_down_stack");
    reveal_strlit("move_up_stack");
    reveal_strlit("focus_output_left");
    reveal_strlit("focus_output_right");
    reveal_strlit("focus_output_up");
    reveal_strlit("focus_output_down");
    let a = plain_actions()[i].0;
    let b = plain_actions()[j].0;
    if a == b {
        assert(a.len() == b.len());
        assert(a[0] == b[0]);
        assert(a[a.len() - 1] == b[b.len() - 1]);
        assert(a.len() > 7 ==> a[6] == b[6] && a[7] == b[7]);
    }
}

/// A name that the configuration offers for an action without an argument
/// stands for the action of that name, and no two names for the same one.
pub proof fn lemma_plain_actions(i: int, j: int)
    requires
        0 <= i < plain_actions().len(),
        0 <= j < plain_actions().len(),
    ensures
        ({
            let (name, action) = plain_actions()[i];
            &&& name == "quit"@ ==> action == Action::Quit
            &&& name == "close"@ ==> action == Action::Close
            &&& name == "reload_config"@ ==> action == Action::ReloadConfig
            &&& name == "full_screen"@ ==> action == Action::FullScreen
            &&& name == "focus_next_tag"@ ==> action == Action::FocusNextTag
            &&& name == "focus_previous_tag"@ ==> action == Action::FocusPreviousTag
            &&& name == "move_next_tag"@ ==> action == Action::MoveNextTag
            &&& name == "move_previous_tag"@ ==> action == Action::MovePreviousTag
            &&& name == "focus_down_stack"@ ==> action == Action::FocusDownStack
            &&& name == "focus_up_stack"@ ==> action == Action::FocusUpStack
            &&& name == "move_down_stack"@ ==> action == Action::MoveDownStack
            &&& name == "move_up_stack"@ ==> action == Action::MoveUpStack
            &&& name == "focus_output_left"@ ==> action == Action::FocusOutputLeft
            &&& name == "focus_output_right"@ ==> action == Action::FocusOutputRight
            &&& name == "focus_output_up"@ ==> action == Action::FocusOutputUp
            &&& name == "focus_output_down"@ ==> action == Action::FocusOutputDown
            &&& (plain_actions()[j].0 == name <==> i == j)
            &&& (plain_actions()[j].1 == action <==> i == j)
        }),
{
    if i < j {
        lemma_plain_names(i, j);
    } else if j < i {
        lemma_plain_names(j, i);
    }
    assert forall|k: int| 0 <= k < plain_actions().len() && k != i implies (
    #[trigger] plain_actions()[k]).0 != plain_actions()[i].0 by {
        if i < k {
            lemma_plain_names(i, k);
        } else {
            lemma_plain_names(k, i);
        }
    }
    assert(plain_actions()[0] == ("quit"@, Action::Quit));
    assert(plain_actions()[1] == ("close"@, Action::Close));
    assert(plain_actions()[2] == ("reload_config"@, Action::ReloadConfig));
    assert(plain_actions()[3] == ("full_screen"@, Action::FullScreen));
    assert(plain_actions()[4] == ("focus_next_tag"@, Action::FocusNextTag));
    assert(plain_actions()[5] == ("focus_previous_tag"@, Action::FocusPreviousTag));
    assert(plain_actions()[6] == ("move_next_tag"@, Action::MoveNextTag));
    assert(plain_actions()[7] == ("move_previous_tag"@, Action::MovePreviousTag));
    assert(plain_actions()[8] == ("focus_down_stack"@, Action::FocusDownStack));
    assert(plain_actions()[9] == ("focus_up_stack"@, Action::FocusUpStack));
    assert(plain_actions()[10] == ("move_down_stack"@, Action::MoveDownStack));
    assert(plain_actions()[11] == ("move_up_stack"@, Action::MoveUpStack));
    assert(plain_actions()[12] == ("focus_output_left"@, Action::FocusOutputLeft));
    assert(plain_actions()[13] == ("focus_output_right"@, Action::FocusOutputRight));
    assert(plain_actions()[14] == ("focus_output_up"@, Action::FocusOutputUp));
    assert(plain_actions()[15] == ("focus_output_down"@, Action::FocusOutputDown));
}

/// Every one of these names is offered, and nothing else.
pub proof fn lemma_plain_actions_offered()
    ensures
        plain_actions().len() == 16,
        plain_actions().contains(("quit"@, Action::Quit)),
        plain_actions().contains(("close"@, Action::Close)),
        plain_actions().contains(("reload_config"@, Action::ReloadConfig)),
        plain_actions().contains(("full_screen"@, Action::FullScreen)),
        plain_actions().contains(("focus_next_tag"@, Action::FocusNextTag)),
        plain_actions().contains(("focus_previous_tag"@, Action::FocusPreviousTag)),
        plain_actions().contains(("move_next_tag"@, Action::MoveNextTag)),
        plain_actions().contains(("move_previous_tag"@, Action::MovePreviousTag)),
        plain_actions().contains(("focus_down_stack"@, Action::FocusDownStack)),
        plain_actions().contains(("focus_up_stack"@, Action::FocusUpStack)),
        plain_actions().contains(("move_down_stack"@, Action::MoveDownStack)),
        plain_actions().contains(("move_up_stack"@, Action::MoveUpStack)),
        plain_actions().contains(("focus_output_left"@, Action::FocusOutputLeft)),
        plain_actions().contains(("focus_output_right"@, Action::FocusOutputRight)),
        plain_actions().contains(("focus_output_up"@, Action::FocusOutputUp)),
        plain_actions().contains(("focus_output_down"@, Action::FocusOutputDown)),
{
    assert(plain_actions()[0] == ("quit"@, Action::Quit));
    assert(plain_actions()[1] == ("close"@, Action::Close));
    assert(plain_actions()[2] == ("reload_config"@, Action::ReloadConfig));
    assert(plain_actions()[3] == ("full_screen"@, Action::FullScreen));
    assert(plain_actions()[4] == ("focus_next_tag"@, Action::FocusNextTag));
    assert(plain_actions()[5] == ("focus_previous_tag"@, Action::FocusPreviousTag));
    assert(plain_actions()[6] == ("move_next_tag"@, Action::MoveNextTag));
    assert(plain_actions()[7] == ("move_previous_tag"@, Action::MovePreviousTag));
    assert(plain_actions()[8] == ("focus_down_stack"@, Action::FocusDownStack));
    assert(plain_actions()[9] == ("focus_up_stack"@, Action::FocusUpStack));
    assert(plain_actions()[10] == ("move_down_stack"@, Action::MoveDownStack));
    assert(plain_actions()[11] == ("move_up_stack"@, Action::MoveUpStack));
    assert(plain_actions()[12] == ("focus_output_left"@, Action::FocusOutputLeft));
    assert(plain_actions()[13] == ("focus_output_right"@, Action::FocusOutputRight));
    assert(plain_actions()[14] == ("focus_output_up"@, Action::FocusOutputUp));
    assert(plain_actions()[15] == ("focus_output_down"@, Action::FocusOutputDown));
}

/// An action that takes no argument and its name, by their index in the list
/// of such actions.
pub fn plain_action_at(index: usize) -> (r: Option<(&'static str, Action)>)
    ensures
        match r {
            Some((name, action)) => {
                &&& index < plain_actions().len()
                &&& plain_actions()[index as int] == (name@, action)
                &&& name@ == "quit"@ ==> action == Action::Quit
                &&& name@ == "close"@ ==> action == Action::Close
                &&& name@ == "reload_config"@ ==> action == Action::ReloadConfig
                &&& name@ == "full_screen"@ ==> action == Action::FullScreen
                &&& name@ == "focus_next_tag"@ ==> action == Action::FocusNextTag
                &&& name@ == "focus_previous_tag"@ ==> action == Action::FocusPreviousTag
                &&& name@ == "move_next_tag"@ ==> action == Action::MoveNextTag
                &&& name@ == "move_previous_tag"@ ==> action == Action::MovePreviousTag
                &&& name@ == "focus_down_stack"@ ==> action == Action::FocusDownStack
                &&& name@ == "focus_up_stack"@ ==> action == Action::FocusUpStack
                &&& name@ == "move_down_stack"@ ==> action == Action::MoveDownStack
                &&& name@ == "move_up_stack"@ ==> action == Action::MoveUpStack
                &&& name@ == "focus_output_left"@ ==> action == Action::FocusOutputLeft
                &&& name@ == "focus_output_right"@ ==> action == Action::FocusOutputRight
                &&& name@ == "focus_output_up"@ ==> action == Action::FocusOutputUp
                &&& name@ == "focus_output_down"@ ==> action == Action::FocusOutputDown
            },
            None => index >= plain_actions().len(),
        },
        r is Some <==> index < 16,
{
    proof {
        if index < plain_actions().len() {
            lemma_plain_actions(index as int, index as int);
        }
    }
    if index == 0 {
        Some(("quit", Action::Quit))
    } else if index == 1 {
        Some(("close", Action::Close))
    } else if index == 2 {
        Some(("reload_config", Action::ReloadConfig))
    } else if index == 3 {
        Some(("full_screen", Action::FullScreen))
    } else if index == 4 {
        Some(("focus_next_tag", Action::FocusNextTag))
    } else if index == 5 {
        Some(("focus_previous_tag", Action::FocusPreviousTag))
    } else if index == 6 {
        Some(("move_next_tag", Action::MoveNextTag))
    } else if index == 7 {
        Some(("move_previous_tag", Action::MovePreviousTag))
    } else if index == 8 {
        Some(("focus_down_stack", Action::FocusDownStack))
    } else if index == 9 {
        Some(("focus_up_stack", Action::FocusUpStack))
    } else if index == 10 {
        Some(("move_down_stack", Action::MoveDownStack))
    } else if index == 11 {
        Some(("move_up_stack", Action::MoveUpStack))
    } else if index == 12 {
        Some(("focus_output_left", Action::FocusOutputLeft))
    } else if index == 13 {
        Some(("focus_output_right", Action::FocusOutputRight))
    } else if index == 14 {
        Some(("focus_output_up", Action::FocusOutputUp))
    } else if index == 15 {
        Some(("focus_output_down", Action::FocusOutputDown))
    } else {
        None
    }
}

/// How windows are tiled.
#[derive(Debug, Clone, Copy, PartialEq, Eq, Structural)]
pub struct TilingConfig {
    pub master_ratio: Scalar,
    pub tablet_hide_minimized: bool,
    pub right_handed: bool,
}

/// The keyboard layout, in the terms of XKB.
pub struct KeyboardLayout {
    pub rules: String,
    pub model: String,
    pub layout: String,
    pub variant: String,
    pub options: Option<String>,
}

/// The gap between tiles unless another is configured.
pub const DEFAULT_GAP: i32 = 15;

/// The compositor's configuration.
pub struct Config {
    map: Table<KeyPress, Action>,
    lock_map: Table<KeyPress, Action>,
    gestures: Table<Swipe, Action>,
    output_positions: Vec<(String, OutputPosition)>,
    autostarts: Vec<String>,
    execute_actions: Vec<Action>,
    gap_size: i32,
    keyboard_layout: KeyboardLayout,
    pub tiling_config: TilingConfig,
}

/// What a [`Config`] stands for.
#[verifier::ext_equal]
pub struct Settings {
    pub keys: Map<KeyPress, Action>,
    pub lock_keys: Map<KeyPress, Action>,
    pub gestures: Map<Swipe, Action>,
    pub positions: Seq<(Seq<char>, OutputPosition)>,
    pub autostarts: Seq<String>,
    pub commands: Seq<Action>,
    pub gap: i32,
    pub keyboard: KeyboardLayout,
    pub tiling: TilingConfig,
}

impl View for Config {
    type V = Settings;

    closed spec fn view(&self) -> Settings {
        Settings {
            keys: self.map@,
            lock_keys: self.lock_map@,
            gestures: self.gestures@,
            positions: self.output_positions@.map_values(
                |entry: (String, OutputPosition)| (entry.0@, entry.1),
            ),
            autostarts: self.autostarts@,
            commands: self.execute_actions@,
            gap: self.gap_size,
            keyboard: self.keyboard_layout,
            tiling: self.tiling_config,
        }
    }
}

/// The action that `press` is bound to in `keys`.
pub open spec fn bound<K, V>(keys: Map<K, V>, press: K) -> Option<V> {
    if keys.contains_key(press) {
        Some(keys[press])
    } else {
        None
    }
}

/// No key, gesture or output is configured, and everything else is at its
/// default.
pub open spec fn is_blank(settings: Settings) -> bool {
    &&& settings.keys == Map::<KeyPress, Action>::empty()
    &&& settings.lock_keys == Map::<KeyPress, Action>::empty()
    &&& settings.gestures == Map::<Swipe, Action>::empty()
    &&& settings.positions == Seq::<(Seq<char>, OutputPosition)>::empty()
    &&& settings.autostarts == Seq::<String>::empty()
    &&& settings.commands == Seq::<Action>::empty()
    &&& settings.gap == DEFAULT_GAP
    &&& settings.keyboard.rules@ == Seq::<char>::empty()
    &&& settings.keyboard.model@ == Seq::<char>::empty()
    &&& settings.keyboard.layout@ == Seq::<char>::empty()
    &&& settings.keyboard.variant@ == Seq::<char>::empty()
    &&& settings.keyboard.options == None::<String>
    &&& settings.tiling == (TilingConfig {
        master_ratio: Scalar { bits: 0x3FE0_0000_0000_0000 },
        tablet_hide_minimized: false,
        right_handed: false,
    })
}

impl Config {
    pub fn new() -> (config: Self)
        ensures
            is_blank(config@),
            config@.gap == 15,
            config@.tiling.master_ratio.bits == 0x3FE0_0000_0000_0000,
            !config@.tiling.tablet_hide_minimized,
            !config@.tiling.right_handed,
    {
        let config = Config {
            map: Table::new(),
            lock_map: Table::new(),
            gestures: Table::new(),
            output_positions: Vec::new(),
            autostarts: Vec::new(),
            execute_actions: Vec::new(),
            gap_size: DEFAULT_GAP,
            keyboard_layout: KeyboardLayout {
                rules: String::new(),
                model: String::new(),
                layout: String::new(),
                variant: String::new(),
                options: None,
            },
            tiling_config: TilingConfig {
                master_ratio: Scalar { bits: 0x3FE0_0000_0000_0000 },
                tablet_hide_minimized: false,
                right_handed: false,
            },
        };
        assert(config@.positions =~= Seq::<(Seq<char>, OutputPosition)>::empty());
        config
    }

    pub fn get_keypress(&self, press: &KeyPress) -> (action: Option<&Action>)
        ensures
            match action {
                Some(action) => bound(self@.keys, *press) == Some(*action),
                None => bound(self@.keys, *press) == None::<Action>,
            },
    {
        self.map.get(*press)
    }

    pub fn insert_keypress(&mut self, press: KeyPress, action: Action)
        ensures
            final(self)@ == (Settings {
                keys: old(self)@.keys.insert(press, action),
                ..old(self)@
            }),
    {
        self.map.insert(press, action);
    }

    /// The action that `press` is bound to while the session is locked.
    pub fn get_lock_keypress(&self, press: &KeyPress) -> (action: Option<&Action>)
        ensures
            match action {
                Some(action) => bound(self@.lock_keys, *press) == Some(*action),
                None => bound(self@.lock_keys, *press) == None::<Action>,
            },
    {
        self.lock_map.get(*press)
    }

    pub fn insert_lock_keypress(&mut self, press: KeyPress, action: Action)
        ensures
            final(self)@ == (Settings {
                lock_keys: old(self)@.lock_keys.insert(press, action),
                ..old(self)@
            }),
    {
        self.lock_map.insert(press, action);
    }

    /// The action that a swipe is bound to.
    pub fn get_gesture(&self, fingers: u32, direction: GestureDirection) -> (action: Option<
        &Action,
    >)
        ensures
            match action {
                Some(action) => bound(self@.gestures, Swipe { fingers, direction }) == Some(
                    *action,
                ),
                None => bound(self@.gestures, Swipe { fingers, direction }) == None::<Action>,
            },
    {
        self.gestures.get(Swipe { fingers, direction })
    }

    pub fn insert_gesture(&mut self, fingers: u32, direction: GestureDirection, action: Action)
        ensures
            final(self)@ == (Settings {
                gestures: old(self)@.gestures.insert(Swipe { fingers, direction }, action),
                ..old(self)@
            }),
    {
        self.gestures.insert(Swipe { fingers, direction }, action);
    }

    fn find_position(&self, name: &str) -> (slot: Option<usize>)
        ensures
            match slot {
                Some(i) => crate::table::files_at(self@.positions, name@, i as int),
                None => forall|j: int|
                    0 <= j < self@.positions.len() ==> (#[trigger] self@.positions[j]).0 != name@,
            },
    {
        let wanted = name.to_owned();
        let mut i: usize = 0;
        while i < self.output_positions.len()
            invariant
                wanted@ == name@,
                i <= self.output_positions.len(),
                forall|j: int| 0 <= j < i ==> (#[trigger] self@.positions[j]).0 != name@,
            decreases self.output_positions.len() - i,
        {
            assert(self@.positions[i as int].0 == self.output_positions@[i as int].0@);
            if self.output_positions[i].0 == wanted {
                return Some(i);
            }
            i += 1;
        }
        None
    }

    /// What is configured for the output called `name`, if anything.
    pub fn get_output_position(&self, name: &str) -> (position: Option<OutputPosition>)
        ensures
            position == lookup(self@.positions, name@),
    {
        match self.find_position(name) {
            Some(i) => {
                proof {
                    lemma_files_at(self@.positions, name@, i as int);
                }
                Some(self.output_positions[i].1)
            },
            None => {
                proof {
                    lemma_no_key(self@.positions, name@);
                }
                None
            },
        }
    }

    pub fn set_output_position(&mut self, name: String, position: OutputPosition)
        ensures
            final(self)@ == (Settings {
                positions: filed(old(self)@.positions, name@, position),
                ..old(self)@
            }),
    {
        match self.find_position(name.as_str()) {
            Some(i) => {
                proof {
                    lemma_files_at(self@.positions, name@, i as int);
                }
                self.output_positions.set(i, (name, position));
            },
            None => {
                proof {
                    lemma_no_key(self@.positions, name@);
                }
                self.output_positions.push((name, position));
            },
        }
        assert(self@.positions =~= filed(old(self)@.positions, name@, position));
    }

    /// Puts the output called `name` where a configuration asks for it. What
    /// cannot be had changes nothing.
    pub fn place_output(
        &mut self,
        name: String,
        x: i32,
        y: i32,
        options: Option<OutputOptions>,
    ) -> (r: Result<(), ConfigError>)
        ensures
            match OutputPosition::asked(x, y, options) {
                Ok(position) => r == Ok::<(), ConfigError>(()) && final(self)@ == (Settings {
                    positions: filed(old(self)@.positions, name@, position),
                    ..old(self)@
                }),
                Err(error) => r == Err::<(), ConfigError>(error) && final(self)@ == old(self)@,
            },
    {
        match OutputPosition::configured(x, y, options) {
            Ok(position) => {
                self.set_output_position(name, position);
                Ok(())
            },
            Err(error) => Err(error),
        }
    }

    /// The gap between tiles.
    pub fn gap_size(&self) -> (gap: i32)
        ensures
            gap == self@.gap,
    {
        self.gap_size
    }

    pub fn set_gap_size(&mut self, gap: i32)
        ensures
            final(self)@ == (Settings { gap, ..old(self)@ }),
    {
        self.gap_size = gap;
    }

    pub fn tiling(&self) -> (tiling: TilingConfig)
        ensures
            tiling == self@.tiling,
    {
        self.tiling_config
    }

    pub fn set_tiling(&mut self, tiling: TilingConfig)
        ensures
            final(self)@ == (Settings { tiling, ..old(self)@ }),
    {
        self.tiling_config = tiling;
    }

    pub fn keyboard_layout(&self) -> (layout: &KeyboardLayout)
        ensures
            *layout == self@.keyboard,
    {
        &self.keyboard_layout
    }

    pub fn set_keyboard_layout(&mut self, layout: KeyboardLayout)
        ensures
            final(self)@ == (Settings { keyboard: layout, ..old(self)@ }),
    {
        self.keyboard_layout = layout;
    }

    /// The commands that are run once, when the compositor comes up.
    pub fn autostarts(&self) -> (commands: &Vec<String>)
        ensures
            commands@ == self@.autostarts,
    {
        &self.autostarts
    }

    pub fn push_autostart(&mut self, command: String)
        ensures
            final(self)@ == (Settings {
                autostarts: old(self)@.autostarts.push(command),
                ..old(self)@
            }),
    {
        self.autostarts.push(command);
    }

    /// The actions that are carried out whenever the configuration has been
    /// loaded.
    pub fn execute_actions(&self) -> (actions: Vec<Action>)
        ensures
            actions@ == self@.commands,
    {
        let mut actions: Vec<Action> = Vec::new();
        let mut i: usize = 0;
        while i < self.execute_actions.len()
            invariant
                i <= self.execute_actions.len(),
                actions@ == self.execute_actions@.take(i as int),
            decreases self.execute_actions.len() - i,
        {
            actions.push(self.execute_actions[i].clone());
            assert(self.execute_actions@.take(i + 1) =~= self.execute_actions@.take(i as int).push(
                self.execute_actions@[i as int],
            ));
            i += 1;
        }
        assert(self.execute_actions@.take(i as int) =~= self.execute_actions@);
        actions
    }

    pub fn push_execute_action(&mut self, action: Action)
        ensures
            final(self)@ == (Settings {
                commands: old(self)@.commands.push(action),
                ..old(self)@
            }),
    {
        self.execute_actions.push(action);
    }

    /// Binds the key of character `c` under Alt, or under Alt and Shift.
    fn bind_char(&mut self, shift: bool, c: char, action: Action)
        requires
            is_latin(c),
        ensures
            final(self)@ == (Settings {
                keys: old(self)@.keys.insert(default_press(shift, c as u32), action),
                ..old(self)@
            }),
    {
        let modifiers = ModMask { logo: false, ctrl: false, alt: true, shift };
        self.insert_keypress(KeyPress { modifiers, keysym: keysym_from_char(c) }, action);
    }
}

/// A key under Alt, or under Alt and Shift.
pub open spec fn default_press(shift: bool, keysym: u32) -> KeyPress {
    KeyPress { modifiers: ModMask { logo: false, ctrl: false, alt: true, shift }, keysym }
}

/// What the default configuration binds `press` to.
pub open spec fn is_default_binding(press: KeyPress, action: Option<Action>) -> bool {
    let key = press.keysym;
    if press == default_press(false, key) {
        if key == 'j' as u32 {
            action == Some(Action::FocusDownStack)
        } else if key == 'k' as u32 {
            action == Some(Action::FocusUpStack)
        } else if key == 'u' as u32 {
            action == Some(Action::FocusPreviousTag)
        } else if key == 'i' as u32 {
            action == Some(Action::FocusNextTag)
        } else if key == 'q' as u32 {
            action == Some(Action::Close)
        } else if key == 'r' as u32 {
            action == Some(Action::ReloadConfig)
        } else if '1' as u32 <= key <= '9' as u32 {
            action == Some(Action::FocusTag(TagId((key - '1' as u32) as u32)))
        } else if key == 't' as u32 {
            action matches Some(Action::SetLayout(layout)) && layout@ == "MasterStack"@
        } else if key == 'f' as u32 {
            action == Some(Action::FullScreen)
        } else if key == KEY_RETURN {
            action matches Some(Action::Spawn(command)) && command@ == "alacritty"@
        } else if key == KEY_LEFT {
            action == Some(Action::FocusOutputLeft)
        } else if key == KEY_RIGHT {
            action == Some(Action::FocusOutputRight)
        } else if key == KEY_UP {
            action == Some(Action::FocusOutputUp)
        } else if key == KEY_DOWN {
            action == Some(Action::FocusOutputDown)
        } else {
            action == None::<Action>
        }
    } else if press == default_press(true, key) {
        if key == 'j' as u32 {
            action == Some(Action::MoveDownStack)
        } else if key == 'k' as u32 {
            action == Some(Action::MoveUpStack)
        } else if key == 'u' as u32 {
            action == Some(Action::MovePreviousTag)
        } else if key == 'i' as u32 {
            action == Some(Action::MoveNextTag)
        } else if key == 'q' as u32 {
            action == Some(Action::Quit)
        } else if '1' as u32 <= key <= '9' as u32 {
            action == Some(Action::MoveToTag(TagId((key - '1' as u32) as u32)))
        } else {
            action == None::<Action>
        }
    } else {
        action == None::<Action>
    }
}

/// What `sym` is bound to under Alt, or under Alt and Shift.
pub open spec fn under_alt(keys: Map<KeyPress, Action>, shift: bool, sym: u32) -> Option<Action> {
    let press = KeyPress {
        modifiers: ModMask { logo: false, ctrl: false, alt: true, shift },
        keysym: sym,
    };
    if keys.contains_key(press) {
        Some(keys[press])
    } else {
        None
    }
}

/// The keys that work unless others are configured: j and k for the stack, u
/// and i for tags, the digits for tags by their number, q to close and quit, r
/// to reload, f for fullscreen, t for the layout, Return for a terminal and the
/// arrows for outputs. Alt asks for the focus, and Shift besides for a move.
pub open spec fn plainly_bound(keys: Map<KeyPress, Action>) -> bool {
    &&& under_alt(keys, false, 0x6a) == Some(Action::FocusDownStack)
    &&& under_alt(keys, false, 0x6b) == Some(Action::FocusUpStack)
    &&& under_alt(keys, false, 0x75) == Some(Action::FocusPreviousTag)
    &&& under_alt(keys, false, 0x69) == Some(Action::FocusNextTag)
    &&& under_alt(keys, false, 0x71) == Some(Action::Close)
    &&& under_alt(keys, false, 0x72) == Some(Action::ReloadConfig)
    &&& under_alt(keys, false, 0x66) == Some(Action::FullScreen)
    &&& under_alt(keys, false, 0xff51) == Some(Action::FocusOutputLeft)
    &&& under_alt(keys, false, 0xff52) == Some(Action::FocusOutputUp)
    &&& under_alt(keys, false, 0xff53) == Some(Action::FocusOutputRight)
    &&& under_alt(keys, false, 0xff54) == Some(Action::FocusOutputDown)
    &&& under_alt(keys, true, 0x6a) == Some(Action::MoveDownStack)
    &&& under_alt(keys, true, 0x6b) == Some(Action::MoveUpStack)
    &&& under_alt(keys, true, 0x75) == Some(Action::MovePreviousTag)
    &&& under_alt(keys, true, 0x69) == Some(Action::MoveNextTag)
    &&& under_alt(keys, true, 0x71) == Some(Action::Quit)
    &&& forall|n: int|
        1 <= n <= 9 ==> #[trigger] under_alt(keys, false, (0x30 + n) as u32) == Some(
            Action::FocusTag(TagId((n - 1) as u32)),
        )
    &&& forall|n: int|
        1 <= n <= 9 ==> #[trigger] under_alt(keys, true, (0x30 + n) as u32) == Some(
            Action::MoveToTag(TagId((n - 1) as u32)),
        )
    &&& under_alt(keys, false, 0x74) matches Some(Action::SetLayout(name)) && name@
        == "MasterStack"@
    &&& under_alt(keys, false, 0xff0d) matches Some(Action::Spawn(command)) && command@
        == "alacritty"@
    &&& forall|press: KeyPress| #[trigger]
        keys.contains_key(press) ==> press.modifiers.alt && !press.modifiers.logo
            && !press.modifiers.ctrl
}

/// What the defaults bind a key to is what they say they do.
pub proof fn lemma_default_bindings(keys: Map<KeyPress, Action>)
    requires
        forall|press: KeyPress| #[trigger] is_default_binding(press, bound(keys, press)),
    ensures
        plainly_bound(keys),
{
    assert forall|shift: bool, sym: u32| is_default_binding(
        default_press(shift, sym),
        #[trigger] under_alt(keys, shift, sym),
    ) by {
        assert(is_default_binding(
            default_press(shift, sym),
            bound(keys, default_press(shift, sym)),
        ));
    }
    assert forall|press: KeyPress| #[trigger] keys.contains_key(press) implies press.modifiers.alt
        && !press.modifiers.logo && !press.modifiers.ctrl by {
        assert(is_default_binding(press, bound(keys, press)));
    }
}

impl Default for Config {
    fn default() -> (config: Self)
        ensures
            forall|press: KeyPress| #[trigger]
                is_default_binding(press, bound(config@.keys, press)),
            is_blank(Settings { keys: Map::empty(), ..config@ }),
            config@.gap == 15,
            config@.lock_keys.dom() == Set::<KeyPress>::empty(),
            config@.gestures.dom() == Set::<Swipe>::empty(),
            plainly_bound(config@.keys),
    {
        let mut config = Config::new();
        config.bind_char(false, 'j', Action::FocusDownStack);
        config.bind_char(false, 'k', Action::FocusUpStack);
        config.bind_char(false, 'u', Action::FocusPreviousTag);
        config.bind_char(false, 'i', Action::FocusNextTag);
        config.bind_char(false, 'q', Action::Close);
        config.bind_char(false, 'r', Action::ReloadConfig);

        config.bind_char(true, 'j', Action::MoveDownStack);
        config.bind_char(true, 'k', Action::MoveUpStack);
        config.bind_char(true, 'u', Action::MovePreviousTag);
        config.bind_char(true, 'i', Action::MoveNextTag);
        config.bind_char(true, 'q', Action::Quit);

        config.bind_char(false, '1', Action::FocusTag(TagId(0)));
        config.bind_char(false, '2', Action::FocusTag(TagId(1)));
        config.bind_char(false, '3', Action::FocusTag(TagId(2)));
        config.bind_char(false, '4', Action::FocusTag(TagId(3)));
        config.bind_char(false, '5', Action::FocusTag(TagId(4)));
        config.bind_char(false, '6', Action::FocusTag(TagId(5)));
        config.bind_char(false, '7', Action::FocusTag(TagId(6)));
        config.bind_char(false, '8', Action::FocusTag(TagId(7)));
        config.bind_char(false, '9', Action::FocusTag(TagId(8)));

        config.bind_char(true, '1', Action::MoveToTag(TagId(0)));
        config.bind_char(true, '2', Action::MoveToTag(TagId(1)));
        config.bind_char(true, '3', Action::MoveToTag(TagId(2)));
        config.bind_char(true, '4', Action::MoveToTag(TagId(3)));
        config.bind_char(true, '5', Action::MoveToTag(TagId(4)));
        config.bind_char(true, '6', Action::MoveToTag(TagId(5)));
        config.bind_char(true, '7', Action::MoveToTag(TagId(6)));
        config.bind_char(true, '8', Action::MoveToTag(TagId(7)));
        config.bind_char(true, '9', Action::MoveToTag(TagId(8)));

        config.bind_char(false, 't', Action::SetLayout("MasterStack".to_owned()));
        config.bind_char(false, 'f', Action::FullScreen);

        let alt = ModMask { logo: false, ctrl: false, alt: true, shift: false };
        config.insert_keypress(
            KeyPress { modifiers: alt, keysym: KEY_RETURN },
            Action::Spawn("alacritty".to_owned()),
        );
        config.insert_keypress(
            KeyPress { modifiers: alt, keysym: KEY_LEFT },
            Action::FocusOutputLeft,
        );
        config.insert_keypress(
            KeyPress { modifiers: alt, keysym: KEY_RIGHT },
            Action::FocusOutputRight,
        );
        config.insert_keypress(KeyPress { modifiers: alt, keysym: KEY_UP }, Action::FocusOutputUp);
        config.insert_keypress(
            KeyPress { modifiers: alt, keysym: KEY_DOWN },
            Action::FocusOutputDown,
        );
        proof {
            lemma_default_bindings(config@.keys);
        }
        config
    }
}

/// A key does what it was last bound to, and no other key notices.
pub proof fn lemma_bind(keys: Map<KeyPress, Action>, press: KeyPress, action: Action, other: KeyPress)
    ensures
        bound(keys.insert(press, action), press) == Some(action),
        other != press ==> bound(keys.insert(press, action), other) == bound(keys, other),
{
}

/// Super, ctrl, alt and shift have a bit and a name each, in that order, and
/// no two sets of modifiers share their bits.
pub proof fn lemma_modifiers(a: ModMask, b: ModMask)
    ensures
        a.pattern() == b.pattern() ==> a == b,
        0 <= a.pattern() < 16,
        a.logo <==> a.pattern() % 2 == 1,
        a.ctrl <==> a.pattern() / 2 % 2 == 1,
        a.alt <==> a.pattern() / 4 % 2 == 1,
        a.shift <==> a.pattern() / 8 == 1,
        a.pattern() == 0 ==> a.letters() == Seq::<char>::empty(),
        a.pattern() == 1 ==> a.letters() == seq!['S'],
        a.pattern() == 2 ==> a.letters() == seq!['C'],
        a.pattern() == 4 ==> a.letters() == seq!['A'],
        a.pattern() == 8 ==> a.letters() == seq!['S', 'h'],
        a.pattern() == 15 ==> a.letters() == seq!['S', 'C', 'A', 'S', 'h'],
{
    reveal_strlit("S");
    reveal_strlit("C");
    reveal_strlit("A");
    reveal_strlit("Sh");
    if a.pattern() == 0 {
        assert(a.letters() =~= Seq::<char>::empty());
    }
    if a.pattern() == 1 {
        assert(a.letters() =~= seq!['S']);
    }
    if a.pattern() == 2 {
        assert(a.letters() =~= seq!['C']);
    }
    if a.pattern() == 4 {
        assert(a.letters() =~= seq!['A']);
    }
    if a.pattern() == 8 {
        assert(a.letters() =~= seq!['S', 'h']);
    }
    if a.pattern() == 15 {
        assert(a.letters() =~= seq!['S', 'C', 'A', 'S', 'h']);
    }
}

} // verus!
