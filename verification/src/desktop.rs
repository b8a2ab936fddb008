//! The application on the desktop: shortcuts, the key that is held down to record, the little window
//! that shows it, and what becomes of a recording.

use crate::text::{chars_of, is_one_of, same, to_lower, trim, trim_text};
use vstd::prelude::*;

verus! {

// ---------------------------------------------------------------------------
// Quitting
// ---------------------------------------------------------------------------

/// Whether the user has asked to quit.
pub struct AppExitState {
    pub quit_requested: bool,
}

impl AppExitState {
    /// The state with which the application begins.
    pub fn new(quit_requested: bool) -> (r: AppExitState)
        ensures
            r.quit_requested == quit_requested,
    {
        AppExitState { quit_requested }
    }

    /// Takes note that the user asks to quit.
    pub fn request(&mut self)
        ensures
            final(self).quit_requested,
    {
        self.quit_requested = true;
    }
}

// ---------------------------------------------------------------------------
// Shortcuts
// ---------------------------------------------------------------------------

/// The action that shows the application.
pub const GLOBAL_ACTION_SHOW_APP: &'static str = "app.show";

/// The action that opens the live captions.
pub const GLOBAL_ACTION_OPEN_LIVE: &'static str = "live.open";

/// The action that records as long as the key is held down.
pub const GLOBAL_ACTION_RECORD_HOLD: &'static str = "record.hold";

/// Whether there is such an action.
pub open spec fn is_action(action: Seq<char>) -> bool {
    action == GLOBAL_ACTION_SHOW_APP@ || action == GLOBAL_ACTION_OPEN_LIVE@ || action
        == GLOBAL_ACTION_RECORD_HOLD@
}

/// Whether there is such an action.
pub fn is_global_shortcut_action(action: &str) -> (r: bool)
    ensures
        r == is_action(action@),
{
    same(action, GLOBAL_ACTION_SHOW_APP) || same(action, GLOBAL_ACTION_OPEN_LIVE) || same(
        action,
        GLOBAL_ACTION_RECORD_HOLD,
    )
}

/// Whether a key was pressed or let go.
#[derive(Clone, Copy, Debug, PartialEq, Eq, Structural)]
pub enum ShortcutPhase {
    Pressed,
    Released,
}

/// The word for a phase.
pub open spec fn phase_word(phase: ShortcutPhase) -> Seq<char> {
    match phase {
        ShortcutPhase::Pressed => "pressed"@,
        ShortcutPhase::Released => "released"@,
    }
}

/// The word for a phase.
pub fn shortcut_state_label(phase: ShortcutPhase) -> (r: &'static str)
    ensures
        r@ == phase_word(phase),
{
    match phase {
        ShortcutPhase::Pressed => "pressed",
        ShortcutPhase::Released => "released",
    }
}

/// The phase that a word stands for.
pub fn shortcut_phase(word: &str) -> (r: Result<ShortcutPhase, String>)
    ensures
        match r {
            Ok(p) => word@ == phase_word(p),
            Err(e) => word@ != "pressed"@ && word@ != "released"@ && e@
                == "unsupported hold shortcut state: "@ + word@,
        },
{
    if same(word, "pressed") {
        Ok(ShortcutPhase::Pressed)
    } else if same(word, "released") {
        Ok(ShortcutPhase::Released)
    } else {
        let mut message = "unsupported hold shortcut state: ".to_owned();
        message.append(word);
        Err(message)
    }
}

/// What a shortcut does, besides being reported.
#[derive(Clone, Copy, Debug, PartialEq, Eq, Structural)]
pub enum ShortcutEffect {
    ShowMain,
    OpenLive,
    RecordHold,
    Nothing,
}

/// What a shortcut does.
pub open spec fn effect_of(action: Seq<char>, phase: ShortcutPhase) -> ShortcutEffect {
    if action == GLOBAL_ACTION_RECORD_HOLD@ {
        ShortcutEffect::RecordHold
    } else if phase is Released {
        ShortcutEffect::Nothing
    } else if action == GLOBAL_ACTION_SHOW_APP@ {
        ShortcutEffect::ShowMain
    } else if action == GLOBAL_ACTION_OPEN_LIVE@ {
        ShortcutEffect::OpenLive
    } else {
        ShortcutEffect::Nothing
    }
}

/// What a shortcut does.
pub fn shortcut_effect(action: &str, phase: ShortcutPhase) -> (r: ShortcutEffect)
    ensures
        r == effect_of(action@, phase),
{
    proof {
        reveal_strlit("app.show");
        reveal_strlit("live.open");
        reveal_strlit("record.hold");
    }
    if same(action, GLOBAL_ACTION_RECORD_HOLD) {
        ShortcutEffect::RecordHold
    } else if phase == ShortcutPhase::Released {
        ShortcutEffect::Nothing
    } else if same(action, GLOBAL_ACTION_SHOW_APP) {
        ShortcutEffect::ShowMain
    } else if same(action, GLOBAL_ACTION_OPEN_LIVE) {
        ShortcutEffect::OpenLive
    } else {
        ShortcutEffect::Nothing
    }
}

// ---------------------------------------------------------------------------
// The key that is held down
// ---------------------------------------------------------------------------

pub const HOLD_KEY_NONE: u32 = 0;

pub const HOLD_KEY_CTRL_ANY: u32 = 1;

pub const HOLD_KEY_CTRL_LEFT: u32 = 2;

pub const HOLD_KEY_CTRL_RIGHT: u32 = 3;

pub const HOLD_KEY_ALT_ANY: u32 = 4;

pub const HOLD_KEY_ALT_LEFT: u32 = 5;

pub const HOLD_KEY_ALT_RIGHT: u32 = 6;

pub const HOLD_KEY_SHIFT_ANY: u32 = 7;

pub const HOLD_KEY_SHIFT_LEFT: u32 = 8;

pub const HOLD_KEY_SHIFT_RIGHT: u32 = 9;

pub const HOLD_KEY_META_ANY: u32 = 10;

pub const HOLD_KEY_META_LEFT: u32 = 11;

pub const HOLD_KEY_META_RIGHT: u32 = 12;

/// Whether a character of the name of a key counts.
pub open spec fn counts_in_name(c: char) -> bool {
    c != ' ' && c != '-' && c != '_'
}

/// The name of a key, in small letters and without blanks and dashes.
pub open spec fn key_name(accelerator: Seq<char>) -> Seq<char> {
    crate::text::lowered(
        crate::text::trimmed(accelerator).filter(|c: char| counts_in_name(c)),
    )
}

/// The names of a hold key.
pub open spec fn names_of_key(kind: u32) -> Seq<Seq<char>> {
    if kind == HOLD_KEY_CTRL_ANY {
        seq!["ctrl"@, "control"@]
    } else if kind == HOLD_KEY_CTRL_LEFT {
        seq!["leftctrl"@, "leftcontrol"@, "ctrlleft"@, "controlleft"@]
    } else if kind == HOLD_KEY_CTRL_RIGHT {
        seq!["rightctrl"@, "rightcontrol"@, "ctrlright"@, "controlright"@]
    } else if kind == HOLD_KEY_ALT_ANY {
        seq!["alt"@, "option"@]
    } else if kind == HOLD_KEY_ALT_LEFT {
        seq!["leftalt"@, "leftoption"@, "altleft"@, "optionleft"@]
    } else if kind == HOLD_KEY_ALT_RIGHT {
        seq!["rightalt"@, "rightoption"@, "altright"@, "optionright"@]
    } else if kind == HOLD_KEY_SHIFT_ANY {
        seq!["shift"@]
    } else if kind == HOLD_KEY_SHIFT_LEFT {
        seq!["leftshift"@, "shiftleft"@]
    } else if kind == HOLD_KEY_SHIFT_RIGHT {
        seq!["rightshift"@, "shiftright"@]
    } else if kind == HOLD_KEY_META_ANY {
        seq!["meta"@, "super"@, "win"@, "windows"@, "command"@, "cmd"@]
    } else if kind == HOLD_KEY_META_LEFT {
        seq!["leftmeta"@, "leftsuper"@, "leftwin"@, "metaleft"@, "superleft"@, "winleft"@]
    } else if kind == HOLD_KEY_META_RIGHT {
        seq!["rightmeta"@, "rightsuper"@, "rightwin"@, "metaright"@, "superright"@, "winright"@]
    } else {
        Seq::empty()
    }
}

/// The first hold key, from `kind` on, that has the name `name`.
pub open spec fn kind_named(name: Seq<char>, kind: u32) -> Option<u32>
    decreases 13 - kind,
{
    if kind > 12 {
        None
    } else if names_of_key(kind).contains(name) {
        Some(kind)
    } else {
        kind_named(name, (kind + 1) as u32)
    }
}

/// The hold key that an accelerator stands for, if any.
pub open spec fn hold_kind(accelerator: Seq<char>) -> Option<u32> {
    kind_named(key_name(accelerator), 1)
}

fn name_of_key(accelerator: &str) -> (r: Vec<char>)
    ensures
        r@ == key_name(accelerator@),
{
    let all = chars_of(accelerator);
    let s = trim(all.as_slice());
    let ghost p = |c: char| counts_in_name(c);
    let mut kept: Vec<char> = Vec::new();
    let mut i: usize = 0;
    proof {
        reveal_with_fuel(Seq::filter, 1);
        assert(s@.take(0).filter(p) =~= Seq::empty());
    }
    while i < s.len()
        invariant
            i <= s@.len(),
            p == |c: char| counts_in_name(c),
            kept@ == s@.take(i as int).filter(p),
        decreases s.len() - i,
    {
        proof {
            let longer = s@.take(i + 1);
            reveal_with_fuel(Seq::filter, 1);
            assert(longer.drop_last() =~= s@.take(i as int));
            assert(longer.last() == s@[i as int]);
        }
        let c: char = s[i];
        if c != ' ' && c != '-' && c != '_' {
            kept.push(c);
        }
        i = i + 1;
    }
    assert(s@.take(s@.len() as int) =~= s@);
    to_lower(kept.as_slice())
}

fn key_has_name(kind: u32, name: &[char]) -> (r: bool)
    requires
        1 <= kind <= 12,
    ensures
        r == names_of_key(kind).contains(name@),
{
    if kind == HOLD_KEY_CTRL_ANY {
        let list: [&str; 2] = ["ctrl", "control"];
        assert(crate::text::strs(list@) =~= names_of_key(kind));
        is_one_of(name, list.as_slice())
    } else if kind == HOLD_KEY_CTRL_LEFT {
        let list: [&str; 4] = ["leftctrl", "leftcontrol", "ctrlleft", "controlleft"];
        assert(crate::text::strs(list@) =~= names_of_key(kind));
        is_one_of(name, list.as_slice())
    } else if kind == HOLD_KEY_CTRL_RIGHT {
        let list: [&str; 4] = ["rightctrl", "rightcontrol", "ctrlright", "controlright"];
        assert(crate::text::strs(list@) =~= names_of_key(kind));
        is_one_of(name, list.as_slice())
    } else if kind == HOLD_KEY_ALT_ANY {
        let list: [&str; 2] = ["alt", "option"];
        assert(crate::text::strs(list@) =~= names_of_key(kind));
        is_one_of(name, list.as_slice())
    } else if kind == HOLD_KEY_ALT_LEFT {
        let list: [&str; 4] = ["leftalt", "leftoption", "altleft", "optionleft"];
        assert(crate::text::strs(list@) =~= names_of_key(kind));
        is_one_of(name, list.as_slice())
    } else if kind == HOLD_KEY_ALT_RIGHT {
        let list: [&str; 4] = ["rightalt", "rightoption", "altright", "optionright"];
        assert(crate::text::strs(list@) =~= names_of_key(kind));
        is_one_of(name, list.as_slice())
    } else if kind == HOLD_KEY_SHIFT_ANY {
        let list: [&str; 1] = ["shift"];
        assert(crate::text::strs(list@) =~= names_of_key(kind));
        is_one_of(name, list.as_slice())
    } else if kind == HOLD_KEY_SHIFT_LEFT {
        let list: [&str; 2] = ["leftshift", "shiftleft"];
        assert(crate::text::strs(list@) =~= names_of_key(kind));
        is_one_of(name, list.as_slice())
    } else if kind == HOLD_KEY_SHIFT_RIGHT {
        let list: [&str; 2] = ["rightshift", "shiftright"];
        assert(crate::text::strs(list@) =~= names_of_key(kind));
        is_one_of(name, list.as_slice())
    } else if kind == HOLD_KEY_META_ANY {
        let list: [&str; 6] = ["meta", "super", "win", "windows", "command", "cmd"];
        assert(crate::text::strs(list@) =~= names_of_key(kind));
        is_one_of(name, list.as_slice())
    } else if kind == HOLD_KEY_META_LEFT {
        let list: [&str; 6] = [
            "leftmeta",
            "leftsuper",
            "leftwin",
            "metaleft",
            "superleft",
            "winleft",
        ];
        assert(crate::text::strs(list@) =~= names_of_key(kind));
        is_one_of(name, list.as_slice())
    } else {
        let list: [&str; 6] = [
            "rightmeta",
            "rightsuper",
            "rightwin",
            "metaright",
            "superright",
            "winright",
        ];
        assert(crate::text::strs(list@) =~= names_of_key(kind));
        is_one_of(name, list.as_slice())
    }
}

/// The hold key that an accelerator stands for, if any.
pub fn native_hold_key_kind(accelerator: &str) -> (r: Option<u32>)
    ensures
        r == hold_kind(accelerator@),
{
    let name = name_of_key(accelerator);
    let mut kind: u32 = 1;
    while kind <= 12
        invariant
            1 <= kind <= 13,
            name@ == key_name(accelerator@),
            hold_kind(accelerator@) == kind_named(name@, kind),
        decreases 13 - kind,
    {
        if key_has_name(kind, name.as_slice()) {
            return Some(kind);
        }
        kind = kind + 1;
    }
    None
}

/// Whether an accelerator stands for a hold key, on a system where keys can be watched.
pub fn is_native_hold_key_binding(accelerator: &str, supported: bool) -> (r: bool)
    ensures
        r == (supported && hold_kind(accelerator@) is Some),
{
    supported && native_hold_key_kind(accelerator).is_some()
}

/// The keys that can be held down, as the system names them.
#[derive(Clone, Copy, Debug, PartialEq, Eq, Structural)]
pub enum Key {
    Control,
    LeftControl,
    RightControl,
    Alt,
    LeftAlt,
    RightAlt,
    Shift,
    LeftShift,
    RightShift,
    LeftMeta,
    RightMeta,
    Other,
}

/// The scan code of the right shift key.
pub const RIGHT_SHIFT_SCAN_CODE: u32 = 0x36;

/// Whether a key is the hold key. Where the system does not say which of two keys it is, the scan
/// code or the mark of an extended key tells.
pub open spec fn is_hold_key(kind: u32, key: Key, scan_code: u32, extended: bool) -> bool {
    if kind == HOLD_KEY_CTRL_ANY {
        key is Control || key is LeftControl || key is RightControl
    } else if kind == HOLD_KEY_CTRL_LEFT {
        key is LeftControl || key is Control && !extended
    } else if kind == HOLD_KEY_CTRL_RIGHT {
        key is RightControl || key is Control && extended
    } else if kind == HOLD_KEY_ALT_ANY {
        key is Alt || key is LeftAlt || key is RightAlt
    } else if kind == HOLD_KEY_ALT_LEFT {
        key is LeftAlt || key is Alt && !extended
    } else if kind == HOLD_KEY_ALT_RIGHT {
        key is RightAlt || key is Alt && extended
    } else if kind == HOLD_KEY_SHIFT_ANY {
        key is Shift || key is LeftShift || key is RightShift
    } else if kind == HOLD_KEY_SHIFT_LEFT {
        key is LeftShift || key is Shift && scan_code != RIGHT_SHIFT_SCAN_CODE
    } else if kind == HOLD_KEY_SHIFT_RIGHT {
        key is RightShift || key is Shift && scan_code == RIGHT_SHIFT_SCAN_CODE
    } else if kind == HOLD_KEY_META_ANY {
        key is LeftMeta || key is RightMeta
    } else if kind == HOLD_KEY_META_LEFT {
        key is LeftMeta
    } else {
        kind == HOLD_KEY_META_RIGHT && key is RightMeta
    }
}

/// Whether a key is the hold key.
pub fn native_hold_key_matches(kind: u32, key: Key, scan_code: u32, extended: bool) -> (r: bool)
    ensures
        r == is_hold_key(kind, key, scan_code, extended),
{
    match key {
        Key::Control => kind == HOLD_KEY_CTRL_ANY || (kind == HOLD_KEY_CTRL_LEFT && !extended) || (
        kind == HOLD_KEY_CTRL_RIGHT && extended),
        Key::LeftControl => kind == HOLD_KEY_CTRL_ANY || kind == HOLD_KEY_CTRL_LEFT,
        Key::RightControl => kind == HOLD_KEY_CTRL_ANY || kind == HOLD_KEY_CTRL_RIGHT,
        Key::Alt => kind == HOLD_KEY_ALT_ANY || (kind == HOLD_KEY_ALT_LEFT && !extended) || (kind
            == HOLD_KEY_ALT_RIGHT && extended),
        Key::LeftAlt => kind == HOLD_KEY_ALT_ANY || kind == HOLD_KEY_ALT_LEFT,
        Key::RightAlt => kind == HOLD_KEY_ALT_ANY || kind == HOLD_KEY_ALT_RIGHT,
        Key::Shift => kind == HOLD_KEY_SHIFT_ANY || (kind == HOLD_KEY_SHIFT_LEFT && scan_code
            != RIGHT_SHIFT_SCAN_CODE) || (kind == HOLD_KEY_SHIFT_RIGHT && scan_code
            == RIGHT_SHIFT_SCAN_CODE),
        Key::LeftShift => kind == HOLD_KEY_SHIFT_ANY || kind == HOLD_KEY_SHIFT_LEFT,
        Key::RightShift => kind == HOLD_KEY_SHIFT_ANY || kind == HOLD_KEY_SHIFT_RIGHT,
        Key::LeftMeta => kind == HOLD_KEY_META_ANY || kind == HOLD_KEY_META_LEFT,
        Key::RightMeta => kind == HOLD_KEY_META_ANY || kind == HOLD_KEY_META_RIGHT,
        Key::Other => false,
    }
}

/// What the system reports of a key.
#[derive(Clone, Copy, Debug, PartialEq, Eq, Structural)]
pub enum KeyMessage {
    Down,
    Up,
    Other,
}

/// What is told of the hold key.
pub struct NativeHoldKeyEvent {
    pub accelerator: String,
    pub phase: ShortcutPhase,
}

/// The model of what is told of the hold key.
pub open spec fn hold_event_view(e: Option<NativeHoldKeyEvent>) -> Option<
    (Seq<char>, ShortcutPhase),
> {
    match e {
        Some(x) => Some((x.accelerator@, x.phase)),
        None => None,
    }
}

/// The hold key: which it is, how the user calls it, and whether it is down.
pub struct HoldKey {
    pub kind: u32,
    pub is_down: bool,
    pub accelerator: String,
}

/// The model of a [`HoldKey`].
#[verifier::ext_equal]
pub struct HoldView {
    pub kind: u32,
    pub is_down: bool,
    pub accelerator: Seq<char>,
}

impl View for HoldKey {
    type V = HoldView;

    open spec fn view(&self) -> HoldView {
        HoldView { kind: self.kind, is_down: self.is_down, accelerator: self.accelerator@ }
    }
}

/// What is told in a phase: nothing, where the key has no name.
pub open spec fn told(accelerator: Seq<char>, phase: ShortcutPhase) -> Option<
    (Seq<char>, ShortcutPhase),
> {
    if accelerator.len() == 0 {
        None
    } else {
        Some((accelerator, phase))
    }
}

/// The hold key after the user has chosen another one, or none. A key that was down counts as let
/// go.
pub open spec fn rebound(v: HoldView, accelerator: Option<Seq<char>>) -> (
    HoldView,
    Option<(Seq<char>, ShortcutPhase)>,
) {
    (
        match accelerator {
            Some(a) => match hold_kind(a) {
                Some(kind) => HoldView {
                    kind,
                    is_down: false,
                    accelerator: crate::text::trimmed(a),
                },
                None => no_key(),
            },
            None => no_key(),
        },
        if v.is_down {
            told(v.accelerator, ShortcutPhase::Released)
        } else {
            None
        },
    )
}

/// No hold key.
pub open spec fn no_key() -> HoldView {
    HoldView { kind: HOLD_KEY_NONE, is_down: false, accelerator: Seq::empty() }
}

/// The hold key after the system has reported a key. Only the first report of a key that is held
/// down is told.
pub open spec fn key_seen(
    v: HoldView,
    key: Key,
    scan_code: u32,
    extended: bool,
    message: KeyMessage,
) -> (HoldView, Option<(Seq<char>, ShortcutPhase)>) {
    if v.kind == HOLD_KEY_NONE || !is_hold_key(v.kind, key, scan_code, extended) {
        (v, None)
    } else if message is Down && !v.is_down {
        (HoldView { is_down: true, ..v }, told(v.accelerator, ShortcutPhase::Pressed))
    } else if message is Up && v.is_down {
        (HoldView { is_down: false, ..v }, told(v.accelerator, ShortcutPhase::Released))
    } else {
        (v, None)
    }
}

impl HoldKey {
    /// No hold key.
    pub fn new() -> (r: HoldKey)
        ensures
            r@ == no_key(),
    {
        let r = HoldKey { kind: HOLD_KEY_NONE, is_down: false, accelerator: String::new() };
        assert(r@ =~= no_key());
        r
    }

    /// How the user calls the hold key.
    pub fn native_hold_key_accelerator(&self) -> (r: String)
        ensures
            r@ == self@.accelerator,
    {
        self.accelerator.clone()
    }

    /// Takes note of how the user calls the hold key.
    pub fn set_native_hold_key_accelerator(&mut self, value: &str)
        ensures
            final(self)@ == (HoldView { accelerator: value@, ..old(self)@ }),
    {
        self.accelerator = value.to_owned();
    }

    fn tell(&self, phase: ShortcutPhase) -> (r: Option<NativeHoldKeyEvent>)
        ensures
            hold_event_view(r) == told(self@.accelerator, phase),
    {
        if self.accelerator.as_str().is_empty() {
            None
        } else {
            Some(NativeHoldKeyEvent { accelerator: self.native_hold_key_accelerator(), phase })
        }
    }

    /// Takes the key that the user has chosen, or none, and gives what is told of the one before.
    pub fn apply_native_hold_key_binding(&mut self, accelerator: Option<String>) -> (r: Option<
        NativeHoldKeyEvent,
    >)
        ensures
            (final(self)@, hold_event_view(r)) == rebound(
                old(self)@,
                crate::text::opt_view(accelerator),
            ),
    {
        let event = if self.is_down {
            self.tell(ShortcutPhase::Released)
        } else {
            None
        };
        self.is_down = false;
        let mut kind: u32 = HOLD_KEY_NONE;
        let mut label = String::new();
        if let Some(a) = &accelerator {
            if let Some(k) = native_hold_key_kind(a.as_str()) {
                kind = k;
                label = trim_text(a.as_str());
            }
        }
        self.set_native_hold_key_accelerator(label.as_str());
        self.kind = kind;
        assert(self@ =~= rebound(old(self)@, crate::text::opt_view(accelerator)).0);
        event
    }

    /// Takes what the system reports of a key, and gives what is told of it.
    pub fn key(&mut self, key: Key, scan_code: u32, extended: bool, message: KeyMessage) -> (r:
        Option<NativeHoldKeyEvent>)
        ensures
            (final(self)@, hold_event_view(r)) == key_seen(
                old(self)@,
                key,
                scan_code,
                extended,
                message,
            ),
    {
        if self.kind == HOLD_KEY_NONE || !native_hold_key_matches(
            self.kind,
            key,
            scan_code,
            extended,
        ) {
            return None;
        }
        if message == KeyMessage::Down && !self.is_down {
            self.is_down = true;
            self.tell(ShortcutPhase::Pressed)
        } else if message == KeyMessage::Up && self.is_down {
            self.is_down = false;
            self.tell(ShortcutPhase::Released)
        } else {
            None
        }
    }
}

/// Pressing and letting go are told in turn: a press only where the key was up, and then it is down;
/// letting go only where it was down, and then it is up.
pub proof fn law_presses_alternate(
    v: HoldView,
    key: Key,
    scan_code: u32,
    extended: bool,
    message: KeyMessage,
)
    ensures
        ({
            let (w, e) = key_seen(v, key, scan_code, extended, message);
            &&& e matches Some((_, ShortcutPhase::Pressed)) ==> !v.is_down && w.is_down
            &&& e matches Some((_, ShortcutPhase::Released)) ==> v.is_down && !w.is_down
            &&& v.accelerator.len() > 0 && e is None ==> w.is_down == v.is_down
        }),
{
}

/// No recording is left running where the user chooses another key while the old one is down.
pub proof fn law_rebinding_lets_go(v: HoldView, accelerator: Option<Seq<char>>)
    requires
        v.is_down,
        v.accelerator.len() > 0,
    ensures
        rebound(v, accelerator).1 == Some((v.accelerator, ShortcutPhase::Released)),
        !rebound(v, accelerator).0.is_down,
{
}

/// Each kind of hold key is found by all of its names.
pub proof fn law_hold_keys_are_found(name: Seq<char>)
    ensures
        kind_named(name, 1) matches Some(kind) ==> 1 <= kind <= 12 && names_of_key(kind).contains(
            name,
        ),
        kind_named(name, 1) is None ==> forall|kind: u32|
            !#[trigger] names_of_key(kind).contains(name),
{
    lemma_kind_named(name, 1);
    if kind_named(name, 1) is None {
        assert forall|kind: u32| !#[trigger] names_of_key(kind).contains(name) by {
            if kind == 0 || kind > 12 {
                assert(names_of_key(kind).len() == 0);
            }
        }
    }
}

proof fn lemma_kind_named(name: Seq<char>, from: u32)
    requires
        1 <= from,
    ensures
        match kind_named(name, from) {
            Some(kind) => from <= kind <= 12 && names_of_key(kind).contains(name),
            None => forall|kind: u32|
                from <= kind <= 12 ==> !#[trigger] names_of_key(kind).contains(name),
        },
    decreases 13 - from,
{
    if from <= 12 && !names_of_key(from).contains(name) {
        lemma_kind_named(name, (from + 1) as u32);
    }
}

/// The kind of key that a few letters of its name tell.
spec fn kind_by_letters(n: Seq<char>) -> int {
    let len = n.len() as int;
    let (side, at) = if n[0] == 'l' {
        (1int, 4int)
    } else if n[0] == 'r' {
        (2, 5)
    } else if len >= 5 && n[len - 1] == 't' && n[len - 4] == 'l' {
        (1, 0)
    } else if len >= 6 && n[len - 1] == 't' && n[len - 5] == 'r' {
        (2, 0)
    } else {
        (0, 0)
    };
    let family = if n[at] == 'a' || n[at] == 'o' {
        1int
    } else if n[at] == 's' {
        if n[at + 1] == 'h' {
            2
        } else {
            3
        }
    } else if n[at] == 'c' && (n[at + 2] == 'r' || n[at + 2] == 'n') {
        0
    } else {
        3
    };
    1 + 3 * family + side
}

/// No two kinds of keys have a name in common.
proof fn lemma_letters_tell(name: Seq<char>, kind: u32)
    requires
        names_of_key(kind).contains(name),
    ensures
        kind_by_letters(name) == kind,
{
    let list = names_of_key(kind);
    let i = choose|i: int| 0 <= i < list.len() && list[i] == name;
    if kind == 1 {
        reveal_strlit("ctrl");
        reveal_strlit("control");
        assert(kind_by_letters("ctrl"@) == 1);
        assert(kind_by_letters("control"@) == 1);
        assert(name == "ctrl"@ || name == "control"@);
    } else if kind == 2 {
        reveal_strlit("leftctrl");
        reveal_strlit("leftcontrol");
        reveal_strlit("ctrlleft");
        reveal_strlit("controlleft");
        assert(kind_by_letters("leftctrl"@) == 2);
        assert(kind_by_letters("leftcontrol"@) == 2);
        assert(kind_by_letters("ctrlleft"@) == 2);
        assert(kind_by_letters("controlleft"@) == 2);
        assert(name == "leftctrl"@ || name == "leftcontrol"@ || name == "ctrlleft"@ || name == "controlleft"@);
    } else if kind == 3 {
        reveal_strlit("rightctrl");
        reveal_strlit("rightcontrol");
        reveal_strlit("ctrlright");
        reveal_strlit("controlright");
        assert(kind_by_letters("rightctrl"@) == 3);
        assert(kind_by_letters("rightcontrol"@) == 3);
        assert(kind_by_letters("ctrlright"@) == 3);
        assert(kind_by_letters("controlright"@) == 3);
        assert(name == "rightctrl"@ || name == "rightcontrol"@ || name == "ctrlright"@ || name == "controlright"@);
    } else if kind == 4 {
        reveal_strlit("alt");
        reveal_strlit("option");
        assert(kind_by_letters("alt"@) == 4);
        assert(kind_by_letters("option"@) == 4);
        assert(name == "alt"@ || name == "option"@);
    } else if kind == 5 {
        reveal_strlit("leftalt");
        reveal_strlit("leftoption");
        reveal_strlit("altleft");
        reveal_strlit("optionleft");
        assert(kind_by_letters("leftalt"@) == 5);
        assert(kind_by_letters("leftoption"@) == 5);
        assert(kind_by_letters("altleft"@) == 5);
        assert(kind_by_letters("optionleft"@) == 5);
        assert(name == "leftalt"@ || name == "leftoption"@ || name == "altleft"@ || name == "optionleft"@);
    } else if kind == 6 {
        reveal_strlit("rightalt");
        reveal_strlit("rightoption");
        reveal_strlit("altright");
        reveal_strlit("optionright");
        assert(kind_by_letters("rightalt"@) == 6);
        assert(kind_by_letters("rightoption"@) == 6);
        assert(kind_by_letters("altright"@) == 6);
        assert(kind_by_letters("optionright"@) == 6);
        assert(name == "rightalt"@ || name == "rightoption"@ || name == "altright"@ || name == "optionright"@);
    } else if kind == 7 {
        reveal_strlit("shift");
        assert(kind_by_letters("shift"@) == 7);
        assert(name == "shift"@);
    } else if kind == 8 {
        reveal_strlit("leftshift");
        reveal_strlit("shiftleft");
        assert(kind_by_letters("leftshift"@) == 8);
        assert(kind_by_letters("shiftleft"@) == 8);
        assert(name == "leftshift"@ || name == "shiftleft"@);
    } else if kind == 9 {
        reveal_strlit("rightshift");
        reveal_strlit("shiftright");
        assert(kind_by_letters("rightshift"@) == 9);
        assert(kind_by_letters("shiftright"@) == 9);
        assert(name == "rightshift"@ || name == "shiftright"@);
    } else if kind == 10 {
        reveal_strlit("meta");
        reveal_strlit("super");
        reveal_strlit("win");
        reveal_strlit("windows");
        reveal_strlit("command");
        reveal_strlit("cmd");
        assert(kind_by_letters("meta"@) == 10);
        assert(kind_by_letters("super"@) == 10);
        assert(kind_by_letters("win"@) == 10);
        assert(kind_by_letters("windows"@) == 10);
        assert(kind_by_letters("command"@) == 10);
        assert(kind_by_letters("cmd"@) == 10);
        assert(name == "meta"@ || name == "super"@ || name == "win"@ || name == "windows"@ || name == "command"@ || name == "cmd"@);
    } else if kind == 11 {
        reveal_strlit("leftmeta");
        reveal_strlit("leftsuper");
        reveal_strlit("leftwin");
        reveal_strlit("metaleft");
        reveal_strlit("superleft");
        reveal_strlit("winleft");
        assert(kind_by_letters("leftmeta"@) == 11);
        assert(kind_by_letters("leftsuper"@) == 11);
        assert(kind_by_letters("leftwin"@) == 11);
        assert(kind_by_letters("metaleft"@) == 11);
        assert(kind_by_letters("superleft"@) == 11);
        assert(kind_by_letters("winleft"@) == 11);
        assert(name == "leftmeta"@ || name == "leftsuper"@ || name == "leftwin"@ || name == "metaleft"@ || name == "superleft"@ || name == "winleft"@);
    } else if kind == 12 {
        reveal_strlit("rightmeta");
        reveal_strlit("rightsuper");
        reveal_strlit("rightwin");
        reveal_strlit("metaright");
        reveal_strlit("superright");
        reveal_strlit("winright");
        assert(kind_by_letters("rightmeta"@) == 12);
        assert(kind_by_letters("rightsuper"@) == 12);
        assert(kind_by_letters("rightwin"@) == 12);
        assert(kind_by_letters("metaright"@) == 12);
        assert(kind_by_letters("superright"@) == 12);
        assert(kind_by_letters("winright"@) == 12);
        assert(name == "rightmeta"@ || name == "rightsuper"@ || name == "rightwin"@ || name == "metaright"@ || name == "superright"@ || name == "winright"@);
    }
}

/// A key is found by each of its names.
proof fn lemma_found_by_name(name: Seq<char>, kind: u32)
    requires
        names_of_key(kind).contains(name),
    ensures
        kind_named(name, 1) == Some(kind),
{
    lemma_letters_tell(name, kind);
    lemma_kind_named(name, 1);
    if let Some(k) = kind_named(name, 1) {
        lemma_letters_tell(name, k);
    } else {
        assert(1 <= kind <= 12);
    }
}

/// Whether a text is made of small letters.
spec fn all_small(s: Seq<char>) -> bool {
    forall|i: int| 0 <= i < s.len() ==> 'a' <= #[trigger] s[i] && s[i] <= 'z'
}

/// A name in small letters is taken as it is.
proof fn lemma_small_name(s: Seq<char>)
    requires
        all_small(s),
    ensures
        key_name(s) == s,
{
    assert forall|i: int| 0 <= i < s.len() implies !crate::text::is_white(#[trigger] s[i]) by {
        assert('a' <= s[i] && s[i] <= 'z');
    }
    crate::text::lemma_trimmed_is(s, 0, s.len() as int);
    assert(s.subrange(0, s.len() as int) =~= s);
    let p = |c: char| counts_in_name(c);
    assert forall|i: int| 0 <= i < s.len() implies p(#[trigger] s[i]) by {
        assert('a' <= s[i] && s[i] <= 'z');
    }
    crate::tables::lemma_filter_all(s, p);
    assert(crate::text::lowered(s) =~= s) by {
        assert forall|i: int| 0 <= i < s.len() implies crate::text::lower_char(s[i]) == s[i] by {
            assert('a' <= s[i] && s[i] <= 'z');
        }
    }
}

/// The names of the keys of which there is one on the left and one on the right.
pub open spec fn paired_names() -> Seq<Seq<char>> {
    seq![
        "ctrl"@,
        "control"@,
        "alt"@,
        "option"@,
        "shift"@,
        "meta"@,
        "super"@,
        "win"@,
    ]
}

/// Whether a side may stand before and after the name of a key of the kind `kind`.
spec fn takes_sides(x: Seq<char>, kind: u32) -> bool {
    &&& all_small(x)
    &&& names_of_key(kind).contains(x)
    &&& names_of_key((kind + 1) as u32).contains("left"@ + x)
    &&& names_of_key((kind + 1) as u32).contains(x + "left"@)
    &&& names_of_key((kind + 2) as u32).contains("right"@ + x)
    &&& names_of_key((kind + 2) as u32).contains(x + "right"@)
}

proof fn lemma_ctrl_takes_sides()
    ensures
        takes_sides("ctrl"@, 1),
        takes_sides("control"@, 1),
{
    reveal_strlit("left");
    reveal_strlit("right");
    reveal_strlit("ctrl");
    reveal_strlit("leftctrl");
    reveal_strlit("ctrlleft");
    reveal_strlit("rightctrl");
    reveal_strlit("ctrlright");
    reveal_strlit("control");
    reveal_strlit("leftcontrol");
    reveal_strlit("controlleft");
    reveal_strlit("rightcontrol");
    reveal_strlit("controlright");
    assert(names_of_key(1)[0] == "ctrl"@);
    assert("left"@ + "ctrl"@ =~= "leftctrl"@);
    assert(names_of_key(2)[0] == "leftctrl"@);
    assert("ctrl"@ + "left"@ =~= "ctrlleft"@);
    assert(names_of_key(2)[2] == "ctrlleft"@);
    assert("right"@ + "ctrl"@ =~= "rightctrl"@);
    assert(names_of_key(3)[0] == "rightctrl"@);
    assert("ctrl"@ + "right"@ =~= "ctrlright"@);
    assert(names_of_key(3)[2] == "ctrlright"@);
    assert(names_of_key(1)[1] == "control"@);
    assert("left"@ + "control"@ =~= "leftcontrol"@);
    assert(names_of_key(2)[1] == "leftcontrol"@);
    assert("control"@ + "left"@ =~= "controlleft"@);
    assert(names_of_key(2)[3] == "controlleft"@);
    assert("right"@ + "control"@ =~= "rightcontrol"@);
    assert(names_of_key(3)[1] == "rightcontrol"@);
    assert("control"@ + "right"@ =~= "controlright"@);
    assert(names_of_key(3)[3] == "controlright"@);
}

proof fn lemma_alt_takes_sides()
    ensures
        takes_sides("alt"@, 4),
        takes_sides("option"@, 4),
{
    reveal_strlit("left");
    reveal_strlit("right");
    reveal_strlit("alt");
    reveal_strlit("leftalt");
    reveal_strlit("altleft");
    reveal_strlit("rightalt");
    reveal_strlit("altright");
    reveal_strlit("option");
    reveal_strlit("leftoption");
    reveal_strlit("optionleft");
    reveal_strlit("rightoption");
    reveal_strlit("optionright");
    assert(names_of_key(4)[0] == "alt"@);
    assert("left"@ + "alt"@ =~= "leftalt"@);
    assert(names_of_key(5)[0] == "leftalt"@);
    assert("alt"@ + "left"@ =~= "altleft"@);
    assert(names_of_key(5)[2] == "altleft"@);
    assert("right"@ + "alt"@ =~= "rightalt"@);
    assert(names_of_key(6)[0] == "rightalt"@);
    assert("alt"@ + "right"@ =~= "altright"@);
    assert(names_of_key(6)[2] == "altright"@);
    assert(names_of_key(4)[1] == "option"@);
    assert("left"@ + "option"@ =~= "leftoption"@);
    assert(names_of_key(5)[1] == "leftoption"@);
    assert("option"@ + "left"@ =~= "optionleft"@);
    assert(names_of_key(5)[3] == "optionleft"@);
    assert("right"@ + "option"@ =~= "rightoption"@);
    assert(names_of_key(6)[1] == "rightoption"@);
    assert("option"@ + "right"@ =~= "optionright"@);
    assert(names_of_key(6)[3] == "optionright"@);
}

proof fn lemma_shift_takes_sides()
    ensures
        takes_sides("shift"@, 7),
{
    reveal_strlit("left");
    reveal_strlit("right");
    reveal_strlit("shift");
    reveal_strlit("leftshift");
    reveal_strlit("shiftleft");
    reveal_strlit("rightshift");
    reveal_strlit("shiftright");
    assert(names_of_key(7)[0] == "shift"@);
    assert("left"@ + "shift"@ =~= "leftshift"@);
    assert(names_of_key(8)[0] == "leftshift"@);
    assert("shift"@ + "left"@ =~= "shiftleft"@);
    assert(names_of_key(8)[1] == "shiftleft"@);
    assert("right"@ + "shift"@ =~= "rightshift"@);
    assert(names_of_key(9)[0] == "rightshift"@);
    assert("shift"@ + "right"@ =~= "shiftright"@);
    assert(names_of_key(9)[1] == "shiftright"@);
}

proof fn lemma_meta_takes_sides()
    ensures
        takes_sides("meta"@, 10),
        takes_sides("super"@, 10),
        takes_sides("win"@, 10),
{
    reveal_strlit("left");
    reveal_strlit("right");
    reveal_strlit("meta");
    reveal_strlit("leftmeta");
    reveal_strlit("metaleft");
    reveal_strlit("rightmeta");
    reveal_strlit("metaright");
    reveal_strlit("super");
    reveal_strlit("leftsuper");
    reveal_strlit("superleft");
    reveal_strlit("rightsuper");
    reveal_strlit("superright");
    reveal_strlit("win");
    reveal_strlit("leftwin");
    reveal_strlit("winleft");
    reveal_strlit("rightwin");
    reveal_strlit("winright");
    assert(names_of_key(10)[0] == "meta"@);
    assert("left"@ + "meta"@ =~= "leftmeta"@);
    assert(names_of_key(11)[0] == "leftmeta"@);
    assert("meta"@ + "left"@ =~= "metaleft"@);
    assert(names_of_key(11)[3] == "metaleft"@);
    assert("right"@ + "meta"@ =~= "rightmeta"@);
    assert(names_of_key(12)[0] == "rightmeta"@);
    assert("meta"@ + "right"@ =~= "metaright"@);
    assert(names_of_key(12)[3] == "metaright"@);
    assert(names_of_key(10)[1] == "super"@);
    assert("left"@ + "super"@ =~= "leftsuper"@);
    assert(names_of_key(11)[1] == "leftsuper"@);
    assert("super"@ + "left"@ =~= "superleft"@);
    assert(names_of_key(11)[4] == "superleft"@);
    assert("right"@ + "super"@ =~= "rightsuper"@);
    assert(names_of_key(12)[1] == "rightsuper"@);
    assert("super"@ + "right"@ =~= "superright"@);
    assert(names_of_key(12)[4] == "superright"@);
    assert(names_of_key(10)[2] == "win"@);
    assert("left"@ + "win"@ =~= "leftwin"@);
    assert(names_of_key(11)[2] == "leftwin"@);
    assert("win"@ + "left"@ =~= "winleft"@);
    assert(names_of_key(11)[5] == "winleft"@);
    assert("right"@ + "win"@ =~= "rightwin"@);
    assert(names_of_key(12)[2] == "rightwin"@);
    assert("win"@ + "right"@ =~= "winright"@);
    assert(names_of_key(12)[5] == "winright"@);
}

/// Of a key that there is twice, the left one is meant where `left` stands before or after its name,
/// the right one where `right` does.
pub proof fn law_sides_follow_the_key(x: Seq<char>)
    requires
        paired_names().contains(x),
    ensures
        hold_kind(x) is Some,
        hold_kind("left"@ + x) == Some((hold_kind(x)->0 + 1) as u32),
        hold_kind(x + "left"@) == Some((hold_kind(x)->0 + 1) as u32),
        hold_kind("right"@ + x) == Some((hold_kind(x)->0 + 2) as u32),
        hold_kind(x + "right"@) == Some((hold_kind(x)->0 + 2) as u32),
        hold_kind(x)->0 == if x == "ctrl"@ || x == "control"@ {
            HOLD_KEY_CTRL_ANY
        } else if x == "alt"@ || x == "option"@ {
            HOLD_KEY_ALT_ANY
        } else if x == "shift"@ {
            HOLD_KEY_SHIFT_ANY
        } else {
            HOLD_KEY_META_ANY
        },
{
    lemma_ctrl_takes_sides();
    lemma_alt_takes_sides();
    lemma_shift_takes_sides();
    lemma_meta_takes_sides();
    let i = choose|i: int| 0 <= i < paired_names().len() && paired_names()[i] == x;
    let kind: u32 = if i <= 1 {
        1
    } else if i <= 3 {
        4
    } else if i == 4 {
        7
    } else {
        10
    };
    assert(takes_sides(x, kind));
    assert(all_small("left"@)) by {
        reveal_strlit("left");
    }
    assert(all_small("right"@)) by {
        reveal_strlit("right");
    }
    lemma_side_is_small("left"@, x);
    lemma_side_is_small(x, "left"@);
    lemma_side_is_small("right"@, x);
    lemma_side_is_small(x, "right"@);
    lemma_small_name(x);
    lemma_small_name("left"@ + x);
    lemma_small_name(x + "left"@);
    lemma_small_name("right"@ + x);
    lemma_small_name(x + "right"@);
    lemma_found_by_name(x, kind);
    lemma_found_by_name("left"@ + x, (kind + 1) as u32);
    lemma_found_by_name(x + "left"@, (kind + 1) as u32);
    lemma_found_by_name("right"@ + x, (kind + 2) as u32);
    lemma_found_by_name(x + "right"@, (kind + 2) as u32);
    if i > 4 {
        assert(kind_named(x, 1) == Some(10u32));
        if x == "ctrl"@ || x == "control"@ {
            lemma_found_by_name(x, 1);
        } else if x == "alt"@ || x == "option"@ {
            lemma_found_by_name(x, 4);
        } else if x == "shift"@ {
            lemma_found_by_name(x, 7);
        }
    } else if i == 4 {
        if x == "ctrl"@ || x == "control"@ {
            lemma_found_by_name(x, 1);
        } else if x == "alt"@ || x == "option"@ {
            lemma_found_by_name(x, 4);
        }
    } else if i > 1 {
        if x == "ctrl"@ || x == "control"@ {
            lemma_found_by_name(x, 1);
        }
    }
}

proof fn lemma_side_is_small(a: Seq<char>, b: Seq<char>)
    requires
        all_small(a),
        all_small(b),
    ensures
        all_small(a + b),
{
    let s = a + b;
    assert forall|i: int| 0 <= i < s.len() implies 'a' <= #[trigger] s[i] && s[i] <= 'z' by {
        if i < a.len() {
            assert('a' <= a[i] && a[i] <= 'z');
        } else {
            assert('a' <= b[i - a.len()] && b[i - a.len()] <= 'z');
        }
    }
}

/// The case of the letters and white space around it do not matter for which key is meant.
pub proof fn law_hold_keys_ignore_case(
    a: Seq<char>,
    b: Seq<char>,
    u: Seq<char>,
    v: Seq<char>,
)
    requires
        crate::text::same_but_for_case(a, b),
        crate::text::all_white(u),
        crate::text::all_white(v),
    ensures
        hold_kind(u + b + v) == hold_kind(a),
{
    crate::text::lemma_trimmed_around(u, b, v);
    crate::text::lemma_same_but_for_case(a, b);
    lemma_names_ignore_case(crate::text::trimmed(a), crate::text::trimmed(b));
}

proof fn lemma_names_ignore_case(a: Seq<char>, b: Seq<char>)
    requires
        crate::text::same_but_for_case(a, b),
    ensures
        crate::text::lowered(a.filter(|c: char| counts_in_name(c))) == crate::text::lowered(
            b.filter(|c: char| counts_in_name(c)),
        ),
    decreases a.len(),
{
    let p = |c: char| counts_in_name(c);
    reveal_with_fuel(Seq::filter, 1);
    if a.len() > 0 {
        let x = a.drop_last();
        let y = b.drop_last();
        assert forall|i: int| 0 <= i < x.len() implies crate::text::lower_char(#[trigger] x[i])
            == crate::text::lower_char(#[trigger] y[i]) by {
            assert(x[i] == a[i] && y[i] == b[i]);
        }
        lemma_names_ignore_case(x, y);
        let n = a.len() - 1;
        assert(crate::text::lower_char(a[n]) == crate::text::lower_char(b[n]));
        assert(counts_in_name(a[n]) == counts_in_name(b[n]));
        let f = x.filter(p);
        let g = y.filter(p);
        assert(crate::text::lowered(f.push(a[n])) =~= crate::text::lowered(f).push(
            crate::text::lower_char(a[n]),
        ));
        assert(crate::text::lowered(g.push(b[n])) =~= crate::text::lowered(g).push(
            crate::text::lower_char(b[n]),
        ));
    } else {
        assert(a =~= b);
    }
}

/// Whether the white space that a text begins with is plain spaces.
pub open spec fn opens_with_spaces(s: Seq<char>) -> bool {
    forall|k: int|
        #![trigger s[k]]
        0 <= k < s.len() && crate::text::all_white(s.take(k + 1)) ==> s[k] == ' '
}

/// Whether the white space that a text ends with is plain spaces.
pub open spec fn closes_with_spaces(s: Seq<char>) -> bool {
    forall|k: int|
        #![trigger s[k]]
        0 <= k < s.len() && crate::text::all_white(s.skip(k)) ==> s[k] == ' '
}

/// The characters of a name that count.
spec fn counting(s: Seq<char>) -> Seq<char> {
    s.filter(|c: char| counts_in_name(c))
}

/// What counts in two texts is what counts in the first and then in the second.
proof fn lemma_counting_append(a: Seq<char>, b: Seq<char>)
    ensures
        counting(a + b) == counting(a) + counting(b),
{
    Seq::filter_distributes_over_add(a, b, |c: char| counts_in_name(c));
}

/// Where the characters of a text stand once one more is put into it.
proof fn lemma_with_mark(x: Seq<char>, c: char, y: Seq<char>)
    ensures
        forall|k: int|
            0 <= k < x.len() ==> #[trigger] (x + seq![c] + y)[k] == (x + y)[k],
        (x + seq![c] + y)[x.len() as int] == c,
        forall|k: int|
            x.len() < k <= x.len() + y.len() ==> #[trigger] (x + seq![c] + y)[k] == (x + y)[k - 1],
{
}

/// A character that does not count, alone.
proof fn lemma_mark_alone(c: char)
    requires
        !counts_in_name(c),
    ensures
        counting(seq![c]) == Seq::<char>::empty(),
{
    let p = |c: char| counts_in_name(c);
    crate::tables::lemma_filter(seq![c], p);
    let f = seq![c].filter(p);
    if f.len() > 0 {
        assert(p(f[0]) && seq![c].contains(f[0]));
    }
    assert(f =~= Seq::<char>::empty());
}

/// A mark inside of the trimmed text.
proof fn lemma_mark_inside(x: Seq<char>, c: char, y: Seq<char>, i: int, j: int)
    requires
        !counts_in_name(c),
        0 <= i <= j <= x.len() + y.len(),
        forall|k: int| 0 <= k < i ==> crate::text::is_white(#[trigger] (x + y)[k]),
        forall|k: int|
            j <= k < x.len() + y.len() ==> crate::text::is_white(#[trigger] (x + y)[k]),
        !crate::text::is_white((x + y)[i]),
        !crate::text::is_white((x + y)[j - 1]),
        i < x.len() < j,
    ensures
        counting(crate::text::trimmed(x + seq![c] + y)) == counting((x + y).subrange(i, j)),
{
    let s = x + y;
    let w = x + seq![c] + y;
    let n = x.len() as int;
    lemma_with_mark(x, c, y);
    assert forall|k: int| j + 1 <= k < w.len() implies crate::text::is_white(#[trigger] w[k]) by {
        assert(crate::text::is_white(s[k - 1]));
    }
    assert forall|k: int| 0 <= k < i implies crate::text::is_white(#[trigger] w[k]) by {
        assert(crate::text::is_white(s[k]));
    }
    crate::text::lemma_trimmed_is(w, i, j + 1);
    let a = s.subrange(i, n);
    let b = s.subrange(n, j);
    assert(w.subrange(i, j + 1) =~= a + seq![c] + b);
    assert(s.subrange(i, j) =~= a + b);
    lemma_mark_alone(c);
    lemma_counting_append(a + seq![c], b);
    lemma_counting_append(a, seq![c]);
    lemma_counting_append(a, b);
    assert(counting(a) + Seq::<char>::empty() =~= counting(a));
}

/// Text that begins with plain spaces begins with them alone.
proof fn lemma_opening_gap(y: Seq<char>, n: int)
    requires
        0 <= n <= y.len(),
        forall|k: int| 0 <= k < n ==> crate::text::is_white(#[trigger] y[k]),
        opens_with_spaces(y),
    ensures
        forall|k: int| 0 <= k < n ==> #[trigger] y.take(n)[k] == ' ',
{
    assert forall|k: int| 0 <= k < n implies #[trigger] y.take(n)[k] == ' ' by {
        let head = y.take(k + 1);
        assert forall|m: int| 0 <= m < head.len() implies crate::text::is_white(
            #[trigger] head[m],
        ) by {
            assert(crate::text::is_white(y[m]));
        }
        assert(crate::text::all_white(y.take(k + 1)));
        assert(y[k] == ' ');
    }
}

/// Text that ends with plain spaces ends with them alone.
proof fn lemma_closing_gap(x: Seq<char>, n: int)
    requires
        0 <= n <= x.len(),
        forall|k: int| n <= k < x.len() ==> crate::text::is_white(#[trigger] x[k]),
        closes_with_spaces(x),
    ensures
        forall|k: int| 0 <= k < x.len() - n ==> #[trigger] x.skip(n)[k] == ' ',
{
    assert forall|k: int| 0 <= k < x.len() - n implies #[trigger] x.skip(n)[k] == ' ' by {
        let tail = x.skip(n + k);
        assert forall|m: int| 0 <= m < tail.len() implies crate::text::is_white(
            #[trigger] tail[m],
        ) by {
            assert(crate::text::is_white(x[n + k + m]));
        }
        assert(crate::text::all_white(x.skip(n + k)));
        assert(x[n + k] == ' ');
    }
}

/// A mark and spaces before a name do not count.
proof fn lemma_mark_and_gap(c: char, gap: Seq<char>, body: Seq<char>)
    requires
        !counts_in_name(c),
        forall|k: int| 0 <= k < gap.len() ==> #[trigger] gap[k] == ' ',
    ensures
        counting(seq![c] + gap + body) == counting(body),
{
    lemma_spaces_do_not_count(gap);
    lemma_mark_alone(c);
    lemma_counting_append(seq![c] + gap, body);
    lemma_counting_append(seq![c], gap);
    assert(Seq::<char>::empty() + Seq::<char>::empty() + counting(body) =~= counting(body));
}

/// Spaces and a mark after a name do not count.
proof fn lemma_gap_and_mark(body: Seq<char>, gap: Seq<char>, c: char)
    requires
        !counts_in_name(c),
        forall|k: int| 0 <= k < gap.len() ==> #[trigger] gap[k] == ' ',
    ensures
        counting(body + gap + seq![c]) == counting(body),
{
    lemma_spaces_do_not_count(gap);
    lemma_mark_alone(c);
    lemma_counting_append(body + gap, seq![c]);
    lemma_counting_append(body, gap);
    assert(counting(body) + Seq::<char>::empty() + Seq::<char>::empty() =~= counting(body));
}

/// A mark before the trimmed text.
proof fn lemma_mark_before(x: Seq<char>, c: char, y: Seq<char>, i: int, j: int)
    requires
        !counts_in_name(c),
        0 <= i <= j <= x.len() + y.len(),
        forall|k: int| 0 <= k < i ==> crate::text::is_white(#[trigger] (x + y)[k]),
        forall|k: int|
            j <= k < x.len() + y.len() ==> crate::text::is_white(#[trigger] (x + y)[k]),
        !crate::text::is_white((x + y)[i]),
        !crate::text::is_white((x + y)[j - 1]),
        x.len() <= i < j,
        c == ' ' || (c == '-' || c == '_') && opens_with_spaces(y),
    ensures
        counting(crate::text::trimmed(x + seq![c] + y)) == counting((x + y).subrange(i, j)),
{
    let s = x + y;
    let w = x + seq![c] + y;
    let n = x.len() as int;
    lemma_with_mark(x, c, y);
    assert forall|k: int| j + 1 <= k < w.len() implies crate::text::is_white(#[trigger] w[k]) by {
        assert(crate::text::is_white(s[k - 1]));
    }
    if c == ' ' {
        assert forall|k: int| 0 <= k < i + 1 implies crate::text::is_white(#[trigger] w[k]) by {
            if k < n {
                assert(crate::text::is_white(s[k]));
            } else if k > n {
                assert(crate::text::is_white(s[k - 1]));
            }
        }
        crate::text::lemma_trimmed_is(w, i + 1, j + 1);
        assert(w.subrange(i + 1, j + 1) =~= s.subrange(i, j));
    } else {
        assert forall|k: int| 0 <= k < n implies crate::text::is_white(#[trigger] w[k]) by {
            assert(crate::text::is_white(s[k]));
        }
        crate::text::lemma_trimmed_is(w, n, j + 1);
        let gap = y.take(i - n);
        let body = s.subrange(i, j);
        assert forall|k: int| 0 <= k < i - n implies crate::text::is_white(#[trigger] y[k]) by {
            assert(crate::text::is_white(s[n + k]));
        }
        lemma_opening_gap(y, i - n);
        assert(w.subrange(n, j + 1) =~= seq![c] + gap + body);
        lemma_mark_and_gap(c, gap, body);
    }
}

/// A mark after the trimmed text.
proof fn lemma_mark_after(x: Seq<char>, c: char, y: Seq<char>, i: int, j: int)
    requires
        !counts_in_name(c),
        0 <= i <= j <= x.len() + y.len(),
        forall|k: int| 0 <= k < i ==> crate::text::is_white(#[trigger] (x + y)[k]),
        forall|k: int|
            j <= k < x.len() + y.len() ==> crate::text::is_white(#[trigger] (x + y)[k]),
        !crate::text::is_white((x + y)[i]),
        !crate::text::is_white((x + y)[j - 1]),
        i < j <= x.len(),
        c == ' ' || (c == '-' || c == '_') && closes_with_spaces(x),
    ensures
        counting(crate::text::trimmed(x + seq![c] + y)) == counting((x + y).subrange(i, j)),
{
    let s = x + y;
    let w = x + seq![c] + y;
    let n = x.len() as int;
    lemma_with_mark(x, c, y);
    assert forall|k: int| 0 <= k < i implies crate::text::is_white(#[trigger] w[k]) by {
        assert(crate::text::is_white(s[k]));
    }
    if c == ' ' {
        assert forall|k: int| j <= k < w.len() implies crate::text::is_white(#[trigger] w[k]) by {
            if k < n {
                assert(crate::text::is_white(s[k]));
            } else if k > n {
                assert(crate::text::is_white(s[k - 1]));
            }
        }
        crate::text::lemma_trimmed_is(w, i, j);
        assert(w.subrange(i, j) =~= s.subrange(i, j));
    } else {
        assert forall|k: int| n + 1 <= k < w.len() implies crate::text::is_white(
            #[trigger] w[k],
        ) by {
            assert(crate::text::is_white(s[k - 1]));
        }
        crate::text::lemma_trimmed_is(w, i, n + 1);
        let gap = x.skip(j);
        let body = s.subrange(i, j);
        assert forall|k: int| j <= k < n implies crate::text::is_white(#[trigger] x[k]) by {
            assert(crate::text::is_white(s[k]));
        }
        lemma_closing_gap(x, j);
        assert(w.subrange(i, n + 1) =~= body + gap + seq![c]);
        lemma_gap_and_mark(body, gap, c);
    }
}

/// A mark in blank text.
proof fn lemma_mark_in_blank(x: Seq<char>, c: char, y: Seq<char>, i: int, j: int)
    requires
        !counts_in_name(c),
        0 <= i <= j <= x.len() + y.len(),
        forall|k: int| 0 <= k < i ==> crate::text::is_white(#[trigger] (x + y)[k]),
        forall|k: int|
            j <= k < x.len() + y.len() ==> crate::text::is_white(#[trigger] (x + y)[k]),
        i == j,
        c == ' ' || c == '-' || c == '_',
    ensures
        counting(crate::text::trimmed(x + seq![c] + y)) == counting((x + y).subrange(i, j)),
{
    let s = x + y;
    let w = x + seq![c] + y;
    let n = x.len() as int;
    lemma_with_mark(x, c, y);
    let none = Seq::<char>::empty();
    assert(s.subrange(i, j) =~= none);
    lemma_spaces_do_not_count(none);
    assert forall|k: int| 0 <= k < w.len() && k != n implies crate::text::is_white(
        #[trigger] w[k],
    ) by {
        if k < n {
            assert(crate::text::is_white(s[k]));
        } else {
            assert(crate::text::is_white(s[k - 1]));
        }
    }
    if c == ' ' {
        crate::text::lemma_trimmed_is(w, 0, 0);
        assert(w.subrange(0, 0) =~= none);
    } else {
        crate::text::lemma_trimmed_is(w, n, n + 1);
        assert(w.subrange(n, n + 1) =~= seq![c]);
        lemma_mark_alone(c);
    }
}

/// A space, a hyphen or an underscore put into an accelerator does not matter for which key is
/// meant. A hyphen or an underscore must not be put outside of white space other than plain spaces,
/// which it would keep from being trimmed.
pub proof fn law_marks_between_do_not_matter(x: Seq<char>, c: char, y: Seq<char>)
    requires
        c == ' ' || c == '-' || c == '_',
        c == ' ' || !crate::text::all_white(x) || crate::text::all_white(y) || opens_with_spaces(y),
        c == ' ' || !crate::text::all_white(y) || crate::text::all_white(x) || closes_with_spaces(
            x,
        ),
    ensures
        hold_kind(x + seq![c] + y) == hold_kind(x + y),
{
    let s = x + y;
    let n = x.len() as int;
    let (i, j) = crate::text::lemma_trimmed(s);
    if i == j {
        lemma_mark_in_blank(x, c, y, i, j);
    } else if i < n && n < j {
        lemma_mark_inside(x, c, y, i, j);
    } else if n <= i {
        assert(crate::text::all_white(x)) by {
            assert forall|k: int| 0 <= k < x.len() implies crate::text::is_white(
                #[trigger] x[k],
            ) by {
                assert(x[k] == s[k]);
            }
        }
        assert(y[i - n] == s[i]);
        lemma_mark_before(x, c, y, i, j);
    } else {
        assert(crate::text::all_white(y)) by {
            assert forall|k: int| 0 <= k < y.len() implies crate::text::is_white(
                #[trigger] y[k],
            ) by {
                assert(y[k] == s[n + k]);
            }
        }
        assert(x[i] == s[i]);
        lemma_mark_after(x, c, y, i, j);
    }
    assert(counting(crate::text::trimmed(x + seq![c] + y)) == counting(crate::text::trimmed(s)));
}

/// Spaces do not count in the name of a key.
proof fn lemma_spaces_do_not_count(s: Seq<char>)
    requires
        forall|k: int| 0 <= k < s.len() ==> #[trigger] s[k] == ' ',
    ensures
        counting(s) == Seq::<char>::empty(),
{
    let p = |c: char| counts_in_name(c);
    crate::tables::lemma_filter(s, p);
    let f = s.filter(p);
    if f.len() > 0 {
        assert(p(f[0]) && s.contains(f[0]));
    }
    assert(f =~= Seq::<char>::empty());
}

// ---------------------------------------------------------------------------
// The little window
// ---------------------------------------------------------------------------

pub const HOLD_OVERLAY_WIDTH: i32 = 260;

pub const HOLD_OVERLAY_HEIGHT: i32 = 118;

/// A screen: where it begins and how large it is.
#[derive(Clone, Copy)]
pub struct Screen {
    pub x: i32,
    pub y: i32,
    pub width: u32,
    pub height: u32,
}

/// Where the window stands in one direction: a little after the pointer, and on the screen as far as
/// there is room.
pub open spec fn placed_at(pointer: int, begin: int, size: int, window: int) -> int {
    let wanted = pointer + 22;
    let last = begin + size - window;
    if wanted < begin || last < begin {
        begin
    } else if wanted > last {
        last
    } else {
        wanted
    }
}

/// Whether the numbers can be added.
pub open spec fn is_countable(pointer: int, begin: int, size: int, window: int) -> bool {
    &&& pointer + 22 <= i32::MAX
    &&& 0 <= window
    &&& size <= i32::MAX
    &&& begin + size <= i32::MAX
    &&& i32::MIN <= begin + size - window
}

fn place(pointer: i32, begin: i32, size: u32, window: i32) -> (r: i32)
    requires
        is_countable(pointer as int, begin as int, size as int, window as int),
    ensures
        r == placed_at(pointer as int, begin as int, size as int, window as int),
{
    let wanted: i32 = pointer + 22;
    let last: i32 = begin + size as i32 - window;
    if wanted < begin || last < begin {
        begin
    } else if wanted > last {
        last
    } else {
        wanted
    }
}

/// Where the window stands, given the pointer and, where it is known, the screen.
pub fn overlay_position(pointer_x: i32, pointer_y: i32, screen: Option<Screen>) -> (r: (i32, i32))
    requires
        pointer_x + 22 <= i32::MAX,
        pointer_y + 22 <= i32::MAX,
        screen matches Some(s) ==> is_countable(
            pointer_x as int,
            s.x as int,
            s.width as int,
            HOLD_OVERLAY_WIDTH as int,
        ) && is_countable(
            pointer_y as int,
            s.y as int,
            s.height as int,
            HOLD_OVERLAY_HEIGHT as int,
        ),
    ensures
        match screen {
            Some(s) => r.0 == placed_at(
                pointer_x as int,
                s.x as int,
                s.width as int,
                HOLD_OVERLAY_WIDTH as int,
            ) && r.1 == placed_at(
                pointer_y as int,
                s.y as int,
                s.height as int,
                HOLD_OVERLAY_HEIGHT as int,
            ),
            None => r.0 == pointer_x + 22 && r.1 == pointer_y + 22,
        },
{
    match screen {
        Some(s) => (
            place(pointer_x, s.x, s.width, HOLD_OVERLAY_WIDTH),
            place(pointer_y, s.y, s.height, HOLD_OVERLAY_HEIGHT),
        ),
        None => (pointer_x + 22, pointer_y + 22),
    }
}

/// The window never leaves a screen that has room for it.
pub proof fn law_window_stays_on_screen(pointer: int, begin: int, size: int, window: int)
    requires
        0 <= window <= size,
    ensures
        begin <= placed_at(pointer, begin, size, window),
        placed_at(pointer, begin, size, window) + window <= begin + size,
{
}

// ---------------------------------------------------------------------------
// What becomes of a recording
// ---------------------------------------------------------------------------

/// What the user wants done with a recording.
#[derive(Clone, Copy, Debug, PartialEq, Eq, Structural)]
pub enum HoldRecordOutputMode {
    Insert,
    Copy,
    Both,
}

/// What is done with a recording. What fails ends it.
#[derive(Clone, Copy, Debug, PartialEq, Eq, Structural)]
pub enum OutputStep {
    SetClipboard,
    InsertText,
    Paste,
}

/// What is done with a recording, in order.
pub open spec fn output_steps(text: Seq<char>, mode: HoldRecordOutputMode) -> Seq<OutputStep> {
    if crate::text::blank(text) {
        Seq::empty()
    } else {
        match mode {
            HoldRecordOutputMode::Copy => seq![OutputStep::SetClipboard],
            HoldRecordOutputMode::Insert => seq![OutputStep::SetClipboard, OutputStep::InsertText],
            HoldRecordOutputMode::Both => seq![OutputStep::SetClipboard, OutputStep::Paste],
        }
    }
}

/// What is done with a recording, and the text that it is done with.
pub fn complete_hold_recording(text: &str, mode: HoldRecordOutputMode) -> (r: (
    String,
    Vec<OutputStep>,
))
    ensures
        r.0@ == crate::text::trimmed(text@),
        r.1@ == output_steps(text@, mode),
{
    let trimmed = trim_text(text);
    let mut steps: Vec<OutputStep> = Vec::new();
    if !trimmed.as_str().is_empty() {
        steps.push(OutputStep::SetClipboard);
        match mode {
            HoldRecordOutputMode::Copy => {},
            HoldRecordOutputMode::Insert => steps.push(OutputStep::InsertText),
            HoldRecordOutputMode::Both => steps.push(OutputStep::Paste),
        }
    }
    assert(steps@ =~= output_steps(text@, mode));
    (trimmed, steps)
}

/// A character in UTF-16: one unit, or two for one beyond the first 65536.
pub open spec fn utf16_of_char(c: char) -> Seq<u16> {
    if (c as u32) < 0x10000 {
        seq![(c as u32) as u16]
    } else {
        let n = c as int - 0x10000;
        seq![(0xD800 + n / 0x400) as u16, (0xDC00 + n % 0x400) as u16]
    }
}

/// A text in UTF-16.
pub open spec fn utf16_of(s: Seq<char>) -> Seq<u16>
    decreases s.len(),
{
    if s.len() == 0 {
        Seq::empty()
    } else {
        utf16_of(s.drop_last()) + utf16_of_char(s.last())
    }
}

fn code_of(c: char) -> (r: u32)
    ensures
        r == c as int,
        r <= 0x10FFFF,
{
    c as u32
}

/// A text in UTF-16.
pub fn encode_utf16(text: &str) -> (r: Vec<u16>)
    ensures
        r@ == utf16_of(text@),
{
    let s = chars_of(text);
    let mut out: Vec<u16> = Vec::new();
    let mut i: usize = 0;
    assert(s@.take(0) =~= Seq::empty());
    assert(out@ =~= utf16_of(s@.take(0)));
    while i < s.len()
        invariant
            i <= s@.len(),
            out@ == utf16_of(s@.take(i as int)),
        decreases s.len() - i,
    {
        let c: char = s[i];
        let code: u32 = code_of(c);
        let ghost before = out@;
        if code < 0x10000 {
            out.push(code as u16);
        } else {
            let n: u32 = code - 0x10000;
            assert(n / 0x400 < 0x400);
            out.push((0xD800 + n / 0x400) as u16);
            out.push((0xDC00 + n % 0x400) as u16);
        }
        proof {
            assert(out@ =~= before + utf16_of_char(c));
            assert(s@.take(i + 1).drop_last() =~= s@.take(i as int));
            assert(s@.take(i + 1).last() == c);
        }
        i = i + 1;
    }
    assert(s@.take(s@.len() as int) =~= s@);
    out
}

/// What is put on the clipboard for a text: its units in UTF-16 and a zero.
pub fn set_system_clipboard_text(text: &str, supported: bool) -> (r: Result<Vec<u16>, String>)
    ensures
        match r {
            Ok(units) => supported && units@ == utf16_of(text@).push(0),
            Err(e) => !supported && e@
                == "system clipboard integration is only implemented on Windows"@,
        },
{
    if !supported {
        return Err("system clipboard integration is only implemented on Windows".to_owned());
    }
    let mut units = encode_utf16(text);
    units.push(0);
    Ok(units)
}

/// How many units are typed at once.
pub const UNITS_AT_ONCE: usize = 64;

/// The units that are typed at once, one batch after the other.
pub open spec fn batches(units: Seq<u16>) -> Seq<Seq<u16>>
    decreases units.len(),
{
    if units.len() == 0 {
        Seq::empty()
    } else if units.len() <= UNITS_AT_ONCE {
        seq![units]
    } else {
        seq![units.take(UNITS_AT_ONCE as int)] + batches(units.skip(UNITS_AT_ONCE as int))
    }
}

/// A unit of a text in UTF-16, pressed or let go.
#[derive(Clone, Copy, Debug, PartialEq, Eq, Structural)]
pub enum UnitKey {
    Down(u16),
    Up(u16),
}

/// What is typed for units: each is pressed and let go before the next.
pub open spec fn strokes(units: Seq<u16>) -> Seq<UnitKey> {
    Seq::new(
        2 * units.len(),
        |i: int|
            if i % 2 == 0 {
                UnitKey::Down(units[i / 2])
            } else {
                UnitKey::Up(units[i / 2])
            },
    )
}

/// What is typed for units, one batch after the other.
pub open spec fn stroke_batches(units: Seq<u16>) -> Seq<Seq<UnitKey>> {
    batches(units).map_values(|b: Seq<u16>| strokes(b))
}

/// The models of batches.
pub open spec fn batch_views(list: Seq<Vec<UnitKey>>) -> Seq<Seq<UnitKey>> {
    list.map_values(|b: Vec<UnitKey>| b@)
}

/// What is typed for the units from index `from` up to `end`.
fn strokes_between(units: &Vec<u16>, from: usize, end: usize) -> (r: Vec<UnitKey>)
    requires
        from <= end <= units@.len(),
    ensures
        r@ == strokes(units@.subrange(from as int, end as int)),
{
    let mut out: Vec<UnitKey> = Vec::new();
    let mut j: usize = from;
    assert(out@ =~= strokes(units@.subrange(from as int, from as int)));
    while j < end
        invariant
            from <= j <= end <= units@.len(),
            out@ == strokes(units@.subrange(from as int, j as int)),
        decreases end - j,
    {
        let ghost before = out@;
        out.push(UnitKey::Down(units[j]));
        out.push(UnitKey::Up(units[j]));
        proof {
            let longer = units@.subrange(from as int, j + 1);
            assert forall|i: int| 0 <= i < out@.len() implies #[trigger] out@[i] == strokes(
                longer,
            )[i] by {
                if i < before.len() {
                    assert(before[i] == strokes(units@.subrange(from as int, j as int))[i]);
                }
            }
            assert(out@ =~= strokes(longer));
        }
        j = j + 1;
    }
    out
}

/// What is typed for a text: its units in UTF-16 in batches. Each unit is pressed and let go.
pub fn insert_text_at_cursor(text: &str, supported: bool) -> (r: Result<Vec<Vec<UnitKey>>, String>)
    ensures
        match r {
            Ok(list) => supported && batch_views(list@) == stroke_batches(utf16_of(text@)),
            Err(e) => !supported && e@ == "text insertion is only implemented on Windows"@,
        },
{
    if !supported {
        return Err("text insertion is only implemented on Windows".to_owned());
    }
    let units = encode_utf16(text);
    let mut out: Vec<Vec<UnitKey>> = Vec::new();
    let mut i: usize = 0;
    assert(units@.skip(0) =~= units@);
    assert(batch_views(out@) + stroke_batches(units@) =~= stroke_batches(units@));
    while i < units.len()
        invariant
            i <= units@.len(),
            batch_views(out@) + stroke_batches(units@.skip(i as int)) == stroke_batches(units@),
        decreases units.len() - i,
    {
        let len: usize = units.len();
        let end: usize = if len - i <= UNITS_AT_ONCE {
            len
        } else {
            i + UNITS_AT_ONCE
        };
        let batch = strokes_between(&units, i, end);
        let ghost before = batch_views(out@);
        let ghost added = batch@;
        out.push(batch);
        proof {
            let rest = units@.skip(i as int);
            let left = units@.skip(end as int);
            assert(batch_views(out@) =~= before.push(added));
            assert(left =~= rest.skip(end - i));
            assert(units@.subrange(i as int, end as int) =~= rest.take(end - i));
            lemma_stroke_batches(rest);
            if len - i <= UNITS_AT_ONCE {
                assert(rest.take(end - i) =~= rest);
                assert(stroke_batches(left) =~= Seq::empty());
            }
            assert(before.push(added) + stroke_batches(left) =~= before + stroke_batches(rest));
        }
        i = end;
    }
    proof {
        assert(units@.skip(i as int) =~= Seq::empty());
        assert(batch_views(out@) + stroke_batches(units@.skip(i as int)) =~= batch_views(out@));
    }
    Ok(out)
}

/// What is typed first, and what is typed after it.
proof fn lemma_stroke_batches(units: Seq<u16>)
    requires
        units.len() > 0,
    ensures
        units.len() <= UNITS_AT_ONCE ==> stroke_batches(units) == seq![strokes(units)],
        units.len() > UNITS_AT_ONCE ==> stroke_batches(units) == seq![
            strokes(units.take(UNITS_AT_ONCE as int)),
        ] + stroke_batches(units.skip(UNITS_AT_ONCE as int)),
{
    if units.len() <= UNITS_AT_ONCE {
        assert(stroke_batches(units) =~= seq![strokes(units)]);
    } else {
        assert(stroke_batches(units) =~= seq![strokes(units.take(UNITS_AT_ONCE as int))]
            + stroke_batches(units.skip(UNITS_AT_ONCE as int)));
    }
}

/// What follows a batch of which the system took `taken` keys: the next one, or the end where it did
/// not take all.
pub fn after_batch(batch: &Vec<UnitKey>, taken: u32) -> (r: Result<(), String>)
    ensures
        match r {
            Ok(_) => taken == batch@.len(),
            Err(e) => taken != batch@.len() && e@ == "failed to insert text"@,
        },
{
    if taken as usize == batch.len() {
        Ok(())
    } else {
        Err("failed to insert text".to_owned())
    }
}

/// A key of the paste shortcut, pressed or let go.
#[derive(Clone, Copy, Debug, PartialEq, Eq, Structural)]
pub enum PasteKey {
    ControlDown,
    LetterDown,
    LetterUp,
    ControlUp,
}

/// What is typed to paste: control and V are pressed and let go in the opposite order.
pub fn paste_from_clipboard(supported: bool) -> (r: Result<Vec<PasteKey>, String>)
    ensures
        match r {
            Ok(keys) => supported && keys@ == seq![
                PasteKey::ControlDown,
                PasteKey::LetterDown,
                PasteKey::LetterUp,
                PasteKey::ControlUp,
            ],
            Err(e) => !supported && e@ == "text insertion is only implemented on Windows"@,
        },
{
    if !supported {
        return Err("text insertion is only implemented on Windows".to_owned());
    }
    let mut keys: Vec<PasteKey> = Vec::new();
    keys.push(PasteKey::ControlDown);
    keys.push(PasteKey::LetterDown);
    keys.push(PasteKey::LetterUp);
    keys.push(PasteKey::ControlUp);
    assert(keys@ =~= seq![
        PasteKey::ControlDown,
        PasteKey::LetterDown,
        PasteKey::LetterUp,
        PasteKey::ControlUp,
    ]);
    Ok(keys)
}

/// What comes of pasting, where the system took `taken` of the keys.
pub fn after_paste(keys: &Vec<PasteKey>, taken: u32) -> (r: Result<(), String>)
    ensures
        match r {
            Ok(_) => taken == keys@.len(),
            Err(e) => taken != keys@.len() && e@ == "failed to send paste shortcut"@,
        },
{
    if taken as usize == keys.len() {
        Ok(())
    } else {
        Err("failed to send paste shortcut".to_owned())
    }
}

/// The batches that are typed, one after the other.
pub open spec fn typed(list: Seq<Seq<UnitKey>>) -> Seq<UnitKey>
    decreases list.len(),
{
    if list.len() == 0 {
        Seq::empty()
    } else {
        list[0] + typed(list.skip(1))
    }
}

/// The whole text is typed, each unit pressed and let go before the next, and never more than 64
/// units at once.
pub proof fn law_the_whole_text_is_typed(units: Seq<u16>)
    ensures
        typed(stroke_batches(units)) == strokes(units),
        forall|i: int|
            0 <= i < stroke_batches(units).len() ==> 0 < (#[trigger] stroke_batches(units)[i]).len()
                <= 2 * 64,
    decreases units.len(),
{
    let list = stroke_batches(units);
    if units.len() == 0 {
        assert(list =~= Seq::empty());
        assert(typed(list) =~= strokes(units));
    } else {
        lemma_stroke_batches(units);
        if units.len() <= UNITS_AT_ONCE {
            assert(list.skip(1) =~= Seq::empty());
            assert(typed(list.skip(1)) =~= Seq::empty());
            assert(list[0] + Seq::<UnitKey>::empty() =~= strokes(units));
        } else {
            let rest = units.skip(UNITS_AT_ONCE as int);
            let first = units.take(UNITS_AT_ONCE as int);
            law_the_whole_text_is_typed(rest);
            assert(list[0] == strokes(first));
            assert(list.skip(1) =~= stroke_batches(rest));
            assert(typed(list) == strokes(first) + strokes(rest));
            lemma_strokes_append(first, rest);
            assert(first + rest =~= units);
            assert forall|i: int| 0 <= i < list.len() implies 0 < (#[trigger] list[i]).len()
                <= 2 * 64 by {
                if i > 0 {
                    assert(list[i] == stroke_batches(rest)[i - 1]);
                }
            }
        }
    }
}

/// To type units and then others is to type them all.
proof fn lemma_strokes_append(a: Seq<u16>, b: Seq<u16>)
    ensures
        strokes(a + b) == strokes(a) + strokes(b),
{
    let n = 2 * a.len();
    assert forall|i: int| 0 <= i < strokes(a + b).len() implies #[trigger] strokes(a + b)[i] == (
    strokes(a) + strokes(b))[i] by {
        if i >= n {
            assert((i - n) / 2 == i / 2 - a.len() && (i - n) % 2 == i % 2);
            assert((a + b)[i / 2] == b[(i - n) / 2]);
        } else {
            assert((a + b)[i / 2] == a[i / 2]);
        }
    }
    assert(strokes(a + b) =~= strokes(a) + strokes(b));
}

/// The actions that a shortcut can have are three, and what each does goes by its name: recording
/// follows the key down and up, and the others happen where the key goes down.
pub proof fn law_actions_do_what_they_are_named(action: Seq<char>, phase: ShortcutPhase)
    ensures
        is_action(action) <==> action == "app.show"@ || action == "live.open"@ || action
            == "record.hold"@,
        effect_of("record.hold"@, phase) is RecordHold,
        effect_of("app.show"@, ShortcutPhase::Pressed) is ShowMain,
        effect_of("live.open"@, ShortcutPhase::Pressed) is OpenLive,
        action != "record.hold"@ ==> effect_of(action, ShortcutPhase::Released) is Nothing,
        !is_action(action) ==> effect_of(action, phase) is Nothing,
        phase_word(ShortcutPhase::Pressed) == "pressed"@,
        phase_word(ShortcutPhase::Released) == "released"@,
{
    reveal_strlit("app.show");
    reveal_strlit("live.open");
    reveal_strlit("record.hold");
    assert("app.show"@[0] == 'a' && "live.open"@[0] == 'l' && "record.hold"@[0] == 'r');
}

/// A key of one side is that side's and that of its family. One that comes without a side is that of
/// its family, and of the side that the extended mark, or for the shift keys the scan code, tells.
pub proof fn law_keys_are_of_their_kind(kind: u32, key: Key, scan_code: u32, extended: bool)
    ensures
        ({
            let held = is_hold_key(kind, key, scan_code, extended);
            &&& key is LeftControl ==> (held <==> kind == 1 || kind == 2)
            &&& key is RightControl ==> (held <==> kind == 1 || kind == 3)
            &&& key is Control ==> (held <==> kind == 1 || kind == if extended {
                3u32
            } else {
                2u32
            })
            &&& key is LeftAlt ==> (held <==> kind == 4 || kind == 5)
            &&& key is RightAlt ==> (held <==> kind == 4 || kind == 6)
            &&& key is Alt ==> (held <==> kind == 4 || kind == if extended {
                6u32
            } else {
                5u32
            })
            &&& key is LeftShift ==> (held <==> kind == 7 || kind == 8)
            &&& key is RightShift ==> (held <==> kind == 7 || kind == 9)
            &&& key is Shift ==> (held <==> kind == 7 || kind == if scan_code == 0x36 {
                9u32
            } else {
                8u32
            })
            &&& key is LeftMeta ==> (held <==> kind == 10 || kind == 11)
            &&& key is RightMeta ==> (held <==> kind == 10 || kind == 12)
        }),
{
}

/// The names of the keys of either side.
pub proof fn law_key_names_are_known(name: Seq<char>)
    ensures
        names_of_key(1).contains(name) <==> name == "ctrl"@ || name == "control"@,
        names_of_key(4).contains(name) <==> name == "alt"@ || name == "option"@,
        names_of_key(7).contains(name) <==> name == "shift"@,
        names_of_key(10).contains(name) <==> name == "meta"@ || name == "super"@ || name == "win"@
            || name == "windows"@ || name == "command"@ || name == "cmd"@,
{
    let ctrl = names_of_key(1);
    let alt = names_of_key(4);
    let shift = names_of_key(7);
    let meta = names_of_key(10);
    assert(ctrl[0] == "ctrl"@ && ctrl[1] == "control"@);
    assert(alt[0] == "alt"@ && alt[1] == "option"@);
    assert(shift[0] == "shift"@);
    assert(meta[0] == "meta"@ && meta[1] == "super"@ && meta[2] == "win"@ && meta[3] == "windows"@
        && meta[4] == "command"@ && meta[5] == "cmd"@);
}

/// A key that is watched is told of, under the accelerator that it was bound by, where it goes down
/// and where it comes up. Nothing is told of any other key, nor of one that is held.
pub proof fn law_watched_key_is_told_of(
    v: HoldView,
    key: Key,
    scan_code: u32,
    extended: bool,
    message: KeyMessage,
)
    ensures
        ({
            let (w, event) = key_seen(v, key, scan_code, extended, message);
            let watched = v.kind != 0 && is_hold_key(v.kind, key, scan_code, extended);
            let named = v.accelerator.len() > 0;
            &&& w.kind == v.kind && w.accelerator == v.accelerator
            &&& watched && message is Down && !v.is_down ==> w.is_down && event == if named {
                Some((v.accelerator, ShortcutPhase::Pressed))
            } else {
                None
            }
            &&& watched && message is Up && v.is_down ==> !w.is_down && event == if named {
                Some((v.accelerator, ShortcutPhase::Released))
            } else {
                None
            }
            &&& !watched || (message is Down && v.is_down) || (message is Up && !v.is_down) ==> w
                == v && event is None
        }),
{
}

/// The key that is watched is the one that was bound last, by the name that it was bound by, and
/// none where that name is not one of a key.
pub proof fn law_bound_key_is_watched(v: HoldView, accelerator: Seq<char>)
    ensures
        ({
            let w = rebound(v, Some(accelerator)).0;
            &&& !w.is_down
            &&& hold_kind(accelerator) matches Some(kind) ==> w.kind == kind && w.accelerator
                == crate::text::trimmed(accelerator)
            &&& hold_kind(accelerator) is None ==> w.kind == 0 && w.accelerator.len() == 0
        }),
        rebound(v, None).0.kind == 0,
        rebound(v, None).0.accelerator.len() == 0,
        !rebound(v, None).0.is_down,
{
}

/// The window stands twenty-two points beside the pointer where it fits there, and is as small as
/// the note that it shows.
pub proof fn law_window_stands_beside_the_pointer(pointer: int, begin: int, size: int, window: int)
    ensures
        begin <= pointer + 22 && pointer + 22 + window <= begin + size ==> placed_at(
            pointer,
            begin,
            size,
            window,
        ) == pointer + 22,
        window <= size && pointer + 22 + window > begin + size ==> placed_at(
            pointer,
            begin,
            size,
            window,
        ) + window == begin + size,
        window > size || pointer + 22 < begin ==> placed_at(pointer, begin, size, window) == begin,
        HOLD_OVERLAY_WIDTH == 260,
        HOLD_OVERLAY_HEIGHT == 118,
{
}

/// A text with nothing in it goes nowhere. Any other goes to the clipboard first, and from there
/// nowhere else, in as typed keys or in by pasting, as was asked for.
pub proof fn law_text_goes_where_it_is_asked_for(text: Seq<char>)
    ensures
        crate::text::blank(text) ==> forall|mode: HoldRecordOutputMode|
            (#[trigger] output_steps(text, mode)).len() == 0,
        !crate::text::blank(text) ==> {
            &&& output_steps(text, HoldRecordOutputMode::Copy).len() == 1
            &&& output_steps(text, HoldRecordOutputMode::Insert).len() == 2
            &&& output_steps(text, HoldRecordOutputMode::Both).len() == 2
            &&& output_steps(text, HoldRecordOutputMode::Insert)[1] is InsertText
            &&& output_steps(text, HoldRecordOutputMode::Both)[1] is Paste
            &&& forall|mode: HoldRecordOutputMode|
                (#[trigger] output_steps(text, mode))[0] is SetClipboard
        },
{
}

/// A character of the basic plane is one unit, its own number, and any other is a high and a low
/// surrogate that together give its number back.
pub proof fn law_units_give_the_character_back(c: char)
    ensures
        ({
            let u = utf16_of_char(c);
            &&& (c as u32) < 0x10000 ==> u.len() == 1 && u[0] == c as u32
            &&& (c as u32) >= 0x10000 ==> {
                &&& u.len() == 2
                &&& 0xD800 <= u[0] && u[0] < 0xDC00
                &&& 0xDC00 <= u[1] && u[1] < 0xE000
                &&& (u[0] - 0xD800) * 0x400 + (u[1] - 0xDC00) + 0x10000 == c as u32
            }
        }),
{
    let n = c as int - 0x10000;
    if (c as u32) >= 0x10000 {
        assert(0 <= n < 0x100000);
        assert(0 <= n / 0x400 < 0x400);
        assert(n == 0x400 * (n / 0x400) + n % 0x400);
    }
}

/// The units of two texts put together are those of the one and then those of the other, and a text
/// of one character has that character's.
pub proof fn law_units_come_in_order(a: Seq<char>, b: Seq<char>, c: char)
    ensures
        utf16_of(a + b) == utf16_of(a) + utf16_of(b),
        utf16_of(seq![c]) == utf16_of_char(c),
    decreases b.len(),
{
    assert(seq![c].drop_last() =~= Seq::<char>::empty());
    assert(utf16_of(Seq::<char>::empty()) =~= Seq::<u16>::empty());
    assert(utf16_of(seq![c]) =~= utf16_of_char(c));
    if b.len() == 0 {
        assert(a + b =~= a);
        assert(utf16_of(a) + utf16_of(b) =~= utf16_of(a));
    } else {
        law_units_come_in_order(a, b.drop_last(), c);
        assert((a + b).drop_last() =~= a + b.drop_last());
        assert(utf16_of(a + b) =~= utf16_of(a) + utf16_of(b));
    }
}

/// Each unit goes down and comes up at once, one after the other.
pub proof fn law_keys_come_up_again(units: Seq<u16>, i: int)
    requires
        0 <= i < units.len(),
    ensures
        strokes(units).len() == 2 * units.len(),
        strokes(units)[2 * i] == UnitKey::Down(units[i]),
        strokes(units)[2 * i + 1] == UnitKey::Up(units[i]),
{
    assert((2 * i) % 2 == 0 && (2 * i) / 2 == i);
    assert((2 * i + 1) % 2 == 1 && (2 * i + 1) / 2 == i);
}

/// No more than sixty-four units are sent at once, and none is sent without any.
pub proof fn law_units_are_sent_in_small_numbers(units: Seq<u16>, k: int)
    requires
        0 <= k < batches(units).len(),
    ensures
        0 < batches(units)[k].len() <= 64,
        k < batches(units).len() - 1 ==> batches(units)[k].len() == 64,
    decreases units.len(),
{
    if units.len() > 64 {
        let rest = batches(units.skip(64));
        assert(batches(units) =~= seq![units.take(64)] + rest);
        if k > 0 {
            law_units_are_sent_in_small_numbers(units.skip(64), k - 1);
            assert(batches(units)[k] == rest[k - 1]);
        }
    }
}

} // verus!
