//! What the daemon decides around the keyboard hook: whether the Caps Lock mapping is
//! its own, which event flags a chord carries, and what becomes of an event.
use vstd::prelude::*;

use crate::engine::{Decision, DecisionView};
use crate::key::{Modifier, ModifierView, modifier_views};
use crate::text::{
    chars_of, contains, contains_text, count_from, is_ws, is_ws_exec, occurs_at, occurs_exec, trim,
    trim_chars,
};

verus! {

/// The `hidutil` property that maps Caps Lock to F18, in Apple's HID usage codes.
pub const CAPS_TO_F18_MAPPING: &'static str = r#"{"UserKeyMapping":[{"HIDKeyboardModifierMappingSrc":0x700000039,"HIDKeyboardModifierMappingDst":0x70000006D}]}"#;

/// Who owns the current `hidutil` key mapping.
#[derive(Clone, Copy, Debug, PartialEq, Eq, Structural)]
pub enum MappingState {
    /// There is none.
    Empty,
    /// It is exactly the Caps Lock to F18 mapping.
    Owned,
    /// Something else is mapped.
    Foreign,
}

/// The text without its whitespace.
pub open spec fn without_ws(s: Seq<char>) -> Seq<char>
    decreases s.len(),
{
    if s.len() == 0 {
        Seq::empty()
    } else if is_ws(s.last()) {
        without_ws(s.drop_last())
    } else {
        without_ws(s.drop_last()).push(s.last())
    }
}

/// What `hidutil property --get UserKeyMapping` says: nothing mapped, exactly one mapping
/// from Caps Lock to F18, or something else.
pub open spec fn mapping_state_spec(output: Seq<char>) -> MappingState {
    let o = trim(output);
    if o.len() == 0 || o == "(null)"@ || without_ws(o) == "()"@ {
        MappingState::Empty
    } else if count_from(o, "HIDKeyboardModifierMappingSrc"@, 0) == 1 && (contains(o, "30064771129"@)
        || contains(o, "0x700000039"@)) && (contains(o, "30064771181"@) || contains(o, "0x70000006D"@)) {
        MappingState::Owned
    } else {
        MappingState::Foreign
    }
}

fn without_ws_exec(s: &[char]) -> (r: Vec<char>)
    ensures
        r@ == without_ws(s@),
{
    let mut r: Vec<char> = Vec::new();
    let mut i: usize = 0;
    while i < s.len()
        invariant
            i <= s.len(),
            r@ == without_ws(s@.take(i as int)),
        decreases s.len() - i,
    {
        proof {
            assert(s@.take(i + 1).drop_last() =~= s@.take(i as int));
            assert(s@.take(i + 1).last() == s@[i as int]);
        }
        if !is_ws_exec(s[i]) {
            r.push(s[i]);
        }
        i = i + 1;
    }
    proof {
        assert(s@.take(s.len() as int) =~= s@);
    }
    r
}

/// How many times a non-empty needle occurs, counting from the left without overlaps.
fn count_matches(hay: &[char], needle: &[char]) -> (r: usize)
    requires
        needle.len() > 0,
    ensures
        r as nat == count_from(hay@, needle@, 0),
{
    let mut count: usize = 0;
    let mut at: usize = 0;
    while needle.len() <= hay.len() - at
        invariant
            needle.len() > 0,
            at <= hay.len(),
            count <= at,
            count + count_from(hay@, needle@, at as int) == count_from(hay@, needle@, 0),
        decreases hay.len() - at,
    {
        if occurs_exec(hay, needle, at) {
            count = count + 1;
            at = at + needle.len();
        } else {
            at = at + 1;
        }
    }
    count
}

/// Reads who owns the current key mapping.
pub fn mapping_state(output: &str) -> (r: MappingState)
    ensures
        r == mapping_state_spec(output@),
{
    let o = trim_chars(chars_of(output).as_slice());
    let compact = without_ws_exec(o.as_slice());
    let null = chars_of("(null)");
    let empty_list = chars_of("()");
    if o.len() == 0 || crate::text::chars_eq(o.as_slice(), null.as_slice()) || crate::text::chars_eq(
        compact.as_slice(),
        empty_list.as_slice(),
    ) {
        return MappingState::Empty;
    }
    let text = crate::text::string_of(o.as_slice());
    let source_name = chars_of("HIDKeyboardModifierMappingSrc");
    proof {
        reveal_strlit("HIDKeyboardModifierMappingSrc");
    }
    let one_mapping = count_matches(o.as_slice(), source_name.as_slice()) == 1;
    let our_source = contains_text(text.as_str(), "30064771129") || contains_text(text.as_str(), "0x700000039");
    let our_destination = contains_text(text.as_str(), "30064771181") || contains_text(
        text.as_str(),
        "0x70000006D",
    );
    if one_mapping && our_source && our_destination {
        MappingState::Owned
    } else {
        MappingState::Foreign
    }
}

// ---------------------------------------------------------------------------
// Event flags
// ---------------------------------------------------------------------------

/// Caps Lock's flag.
pub const FLAG_ALPHA_SHIFT: u64 = 0x00010000;

/// Shift's flag.
pub const FLAG_SHIFT: u64 = 0x00020000;

/// Control's flag.
pub const FLAG_CONTROL: u64 = 0x00040000;

/// Option's flag.
pub const FLAG_ALTERNATE: u64 = 0x00080000;

/// Command's flag.
pub const FLAG_COMMAND: u64 = 0x00100000;

/// Fn's flag.
pub const FLAG_SECONDARY_FN: u64 = 0x00800000;

/// The event flag of a modifier: either side of a modifier sets the same flag; Hyper and
/// named modifiers set none.
pub open spec fn modifier_flag(rank: nat) -> u64 {
    if 1 <= rank <= 3 {
        0x00100000
    } else if 4 <= rank <= 6 {
        0x00040000
    } else if 7 <= rank <= 9 {
        0x00080000
    } else if 10 <= rank <= 12 {
        0x00020000
    } else if rank == 13 {
        0x00800000
    } else {
        0
    }
}

/// The flags of some modifiers together.
pub open spec fn flags_spec(ms: Seq<ModifierView>) -> u64
    decreases ms.len(),
{
    if ms.len() == 0 {
        0
    } else {
        flags_spec(ms.drop_last()) | modifier_flag(ms.last().0)
    }
}

fn modifier_flag_exec(m: &Modifier) -> (r: u64)
    ensures
        r == modifier_flag(m@.0),
{
    match m {
        Modifier::Command | Modifier::LeftCommand | Modifier::RightCommand => FLAG_COMMAND,
        Modifier::Control | Modifier::LeftControl | Modifier::RightControl => FLAG_CONTROL,
        Modifier::Option | Modifier::LeftOption | Modifier::RightOption => FLAG_ALTERNATE,
        Modifier::Shift | Modifier::LeftShift | Modifier::RightShift => FLAG_SHIFT,
        Modifier::Function => FLAG_SECONDARY_FN,
        Modifier::Hyper | Modifier::Named(_) => 0,
    }
}

/// The event flags a list of modifiers sets.
pub fn flags_for(modifiers: &[Modifier]) -> (r: u64)
    ensures
        r == flags_spec(modifier_views(modifiers@)),
{
    let ghost views = modifier_views(modifiers@);
    let mut flags: u64 = 0;
    let mut i: usize = 0;
    while i < modifiers.len()
        invariant
            i <= modifiers.len(),
            views == modifier_views(modifiers@),
            flags == flags_spec(views.take(i as int)),
        decreases modifiers.len() - i,
    {
        proof {
            assert(views.take(i + 1).drop_last() =~= views.take(i as int));
            assert(views.take(i + 1).last() == modifiers@[i as int]@);
        }
        flags = flags | modifier_flag_exec(&modifiers[i]);
        i = i + 1;
    }
    proof {
        assert(views.take(modifiers.len() as int) =~= views);
    }
    flags
}

// ---------------------------------------------------------------------------
// What becomes of an event
// ---------------------------------------------------------------------------

/// What the keyboard hook does with an event.
#[derive(Clone, Copy, Debug, PartialEq, Eq, Structural)]
pub enum TapAction {
    /// Let it through unchanged.
    Keep,
    /// Drop it.
    Drop,
    /// Let it through with these flags.
    Replace(u64),
}

/// The hook's action for a decision on an event with `flags`: a passed event loses a stray
/// Caps Lock flag when Caps Lock is remapped; a suppressed or triggering one is dropped; a
/// rewritten one loses the Caps Lock flag and gains its modifiers' flags.
pub open spec fn tap_action_spec(decision: DecisionView, flags: u64, strip_caps_flag: bool) -> TapAction {
    match decision {
        DecisionView::Pass => if strip_caps_flag && flags & 0x00010000 != 0 {
            TapAction::Replace(flags & !0x00010000u64)
        } else {
            TapAction::Keep
        },
        DecisionView::Suppress => TapAction::Drop,
        DecisionView::Trigger(_) => TapAction::Drop,
        DecisionView::PassWithModifiers(ms) => TapAction::Replace(
            (flags & !0x00010000u64) | flags_spec(ms),
        ),
    }
}

/// The hook's action for a decision on an event with `flags`.
pub fn tap_action(decision: &Decision, flags: u64, strip_caps_flag: bool) -> (r: TapAction)
    ensures
        r == tap_action_spec(decision@, flags, strip_caps_flag),
{
    match decision {
        Decision::Pass => if strip_caps_flag && flags & FLAG_ALPHA_SHIFT != 0 {
            TapAction::Replace(flags & !FLAG_ALPHA_SHIFT)
        } else {
            TapAction::Keep
        },
        Decision::Suppress => TapAction::Drop,
        Decision::Trigger(_) => TapAction::Drop,
        Decision::PassWithModifiers(modifiers) => TapAction::Replace(
            (flags & !FLAG_ALPHA_SHIFT) | flags_for(modifiers.as_slice()),
        ),
    }
}

} // verus!
