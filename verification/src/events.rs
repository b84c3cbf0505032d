//! Keyboard events, by virtual key code, decoded into engine inputs.
use vstd::prelude::*;

use crate::engine::{EventKind, Input, InputView};
use crate::keycodes::{keycode_modifier_rank, keycode_name, keycode_to_key, modifier_for_keycode};

verus! {

/// The tag on events the daemon posts itself, so that its own hook lets them through.
pub const SYNTHETIC_EVENT_TAG: i64 = 0x4b_45_59_57_45_41_56_45;

/// The virtual key code of Caps Lock.
pub const CAPS_LOCK_KEYCODE: u16 = 0x39;

/// The virtual key code of F18, which Caps Lock is mapped to while the daemon runs.
pub const F18_KEYCODE: u16 = 0x4F;

/// Which modifier keys are down; each flags-changed event toggles its key.
pub struct ModifierTracker {
    pressed: Vec<u16>,
}

impl View for ModifierTracker {
    type V = Set<u16>;

    closed spec fn view(&self) -> Set<u16> {
        self.pressed@.to_set()
    }
}

/// A physical modifier as a value, from its rank.
pub open spec fn physical_modifier(rank: nat) -> (nat, Seq<char>) {
    (rank, Seq::empty())
}

/// What a flags-changed event of `keycode` means when `pressed` are down: the key goes up
/// if it was down and down otherwise; a modifier key reports which modifier moved.
pub open spec fn toggle_spec(pressed: Set<u16>, keycode: u16) -> (Set<u16>, Option<(nat, EventKind)>) {
    let kind = if pressed.contains(keycode) {
        EventKind::Up
    } else {
        EventKind::Down
    };
    (
        if pressed.contains(keycode) {
            pressed.remove(keycode)
        } else {
            pressed.insert(keycode)
        },
        match keycode_modifier_rank(keycode) {
            Some(r) => Some((r, kind)),
            None => None,
        },
    )
}

impl ModifierTracker {
    #[verifier::type_invariant]
    closed spec fn wf(self) -> bool {
        self.pressed@.no_duplicates()
    }

    pub fn new() -> (r: ModifierTracker)
        ensures
            r@ == Set::<u16>::empty(),
    {
        let r = ModifierTracker { pressed: Vec::new() };
        proof {
            assert(r.pressed@.to_set() =~= Set::<u16>::empty());
        }
        r
    }

    /// A flags-changed event of `keycode`.
    pub fn toggle(&mut self, keycode: u16) -> (r: Option<(crate::key::Modifier, EventKind)>)
        ensures
            final(self)@ == toggle_spec(old(self)@, keycode).0,
            match r {
                Some((m, kind)) => toggle_spec(old(self)@, keycode).1 == Some((m@.0, kind)) && m@.1
                    == Seq::<char>::empty(),
                None => toggle_spec(old(self)@, keycode).1 is None,
            },
    {
        proof {
            use_type_invariant(&*self);
        }
        let ghost before = self.pressed@;
        let mut rest: Vec<u16> = Vec::new();
        let mut found = false;
        let mut i: usize = 0;
        while i < self.pressed.len()
            invariant
                i <= self.pressed.len(),
                self.pressed@ == before,
                before.no_duplicates(),
                found == before.take(i as int).contains(keycode),
                rest@.no_duplicates(),
                forall|c: u16| rest@.contains(c) <==> (before.take(i as int).contains(c) && c != keycode),
            decreases self.pressed.len() - i,
        {
            let c = self.pressed[i];
            proof {
                assert(before.take(i + 1) =~= before.take(i as int).push(c));
                vstd::seq_lib::lemma_seq_contains_after_push(before.take(i as int), c, keycode);
            }
            if c == keycode {
                found = true;
            } else {
                proof {
                    assert(!before.take(i as int).contains(c)) by {
                        if before.take(i as int).contains(c) {
                            let j = choose|j: int| 0 <= j < i && before.take(i as int)[j] == c;
                            assert(before[j] == before[i as int]);
                        }
                    }
                }
                let ghost old_rest = rest@;
                rest.push(c);
                proof {
                    assert(!old_rest.contains(c));
                    assert forall|a: int, b: int| 0 <= a < b < rest@.len() implies rest@[a] != rest@[b] by {
                        if b == rest@.len() - 1 {
                            assert(old_rest.contains(rest@[a]));
                        } else {
                            assert(rest@[a] == old_rest[a]);
                            assert(rest@[b] == old_rest[b]);
                        }
                    }
                    assert(rest@.drop_last() =~= old_rest);
                }
            }
            proof {
                assert forall|x: u16| rest@.contains(x) <==> (before.take(i + 1).contains(x) && x != keycode) by {
                    vstd::seq_lib::lemma_seq_contains_after_push(before.take(i as int), c, x);
                    if c != keycode {
                        vstd::seq_lib::lemma_seq_contains_after_push(rest@.drop_last(), c, x);
                        assert(rest@ =~= rest@.drop_last().push(c));
                    }
                }
            }
            i = i + 1;
        }
        proof {
            assert(before.take(before.len() as int) =~= before);
        }
        let kind = if found {
            EventKind::Up
        } else {
            rest = self.pressed.clone();
            rest.push(keycode);
            proof {
                assert forall|x: u16| rest@.contains(x) <==> (before.contains(x) || x == keycode) by {
                    vstd::seq_lib::lemma_seq_contains_after_push(before, keycode, x);
                }
                assert(rest@.no_duplicates()) by {
                    assert forall|a: int, b: int| 0 <= a < b < rest@.len() implies rest@[a] != rest@[b] by {
                        if b == rest@.len() - 1 {
                            assert(rest@[a] == before[a]);
                        }
                    }
                }
            }
            EventKind::Down
        };
        self.pressed = rest;
        proof {
            assert forall|x: u16| self@.contains(x) <==> toggle_spec(before.to_set(), keycode).0.contains(x) by {
                assert(self@.contains(x) == self.pressed@.contains(x));
                assert(before.to_set().contains(x) == before.contains(x));
            }
            assert(self@ =~= toggle_spec(before.to_set(), keycode).0);
        }
        match modifier_for_keycode(keycode) {
            Some(m) => Some((m, kind)),
            None => None,
        }
    }
}

/// The key of a key event: F18 stands for Caps Lock while Caps Lock is mapped to it.
pub open spec fn event_key_name(keycode: u16, remap_caps: bool) -> Option<Seq<char>> {
    if remap_caps && keycode == 0x4F {
        keycode_name(0x39)
    } else {
        keycode_name(keycode)
    }
}

/// The input a key-down or key-up event of `keycode` gives, if its key is known.
pub open spec fn key_input_spec(kind: EventKind, keycode: u16, repeat: bool, remap_caps: bool) -> Option<
    InputView,
> {
    match event_key_name(keycode, remap_caps) {
        Some(key) => Some(InputView::Key { key, kind, repeat }),
        None => None,
    }
}

/// Decodes keyboard events into engine inputs.
pub struct EventDecoder {
    modifier_tracker: ModifierTracker,
    remap_caps: bool,
}

impl EventDecoder {
    pub closed spec fn pressed(&self) -> Set<u16> {
        self.modifier_tracker@
    }

    pub closed spec fn remaps_caps(&self) -> bool {
        self.remap_caps
    }

    /// A decoder with no modifier down; `remap_caps` tells whether F18 stands for Caps Lock.
    pub fn new(remap_caps: bool) -> (r: EventDecoder)
        ensures
            r.pressed() == Set::<u16>::empty(),
            r.remaps_caps() == remap_caps,
    {
        EventDecoder { modifier_tracker: ModifierTracker::new(), remap_caps }
    }

    /// A flags-changed event of `keycode`: the modifier that went down or up, if the key is
    /// a modifier.
    pub fn modifier_input(&mut self, keycode: u16) -> (r: Option<Input>)
        ensures
            final(self).pressed() == toggle_spec(old(self).pressed(), keycode).0,
            final(self).remaps_caps() == old(self).remaps_caps(),
            match r {
                Some(i) => toggle_spec(old(self).pressed(), keycode).1 matches Some((rank, kind))
                    && i@ == (InputView::Modifier { modifier: physical_modifier(rank), kind }),
                None => toggle_spec(old(self).pressed(), keycode).1 is None,
            },
    {
        match self.modifier_tracker.toggle(keycode) {
            Some((modifier, kind)) => Some(Input::Modifier { modifier, kind }),
            None => None,
        }
    }

    /// A key-down or key-up event of `keycode`.
    pub fn key_input(&self, kind: EventKind, keycode: u16, repeat: bool) -> (r: Option<Input>)
        ensures
            match r {
                Some(i) => key_input_spec(kind, keycode, repeat, self.remaps_caps()) == Some(i@),
                None => key_input_spec(kind, keycode, repeat, self.remaps_caps()) is None,
            },
    {
        let code = if self.remap_caps && keycode == F18_KEYCODE {
            CAPS_LOCK_KEYCODE
        } else {
            keycode
        };
        match keycode_to_key(code) {
            Some(key) => Some(Input::Key { key, kind, repeat }),
            None => None,
        }
    }
}


/// Two flags-changed events of the same key report it going down and then up, and leave
/// the same keys down as before.
pub proof fn lemma_toggle_twice(pressed: Set<u16>, keycode: u16)
    requires
        !pressed.contains(keycode),
    ensures
        ({
            let first = toggle_spec(pressed, keycode);
            let second = toggle_spec(first.0, keycode);
            &&& first.1 matches Some((_, k)) ==> k == EventKind::Down
            &&& second.1 matches Some((_, k)) ==> k == EventKind::Up
            &&& second.0 == pressed
        }),
{
    assert(pressed.insert(keycode).remove(keycode) =~= pressed);
}

} // verus!
