//! The lines the listener prints for observed shortcuts.
use vstd::prelude::*;

use crate::config::{Action, ActionView, action_kind, action_value};
use crate::engine::{Decision, DecisionView};
use crate::key::chord_text;
use crate::config::CompiledConfig;
use crate::engine::{EngineState, EventKind, InputView};
use crate::runtime::{HandledEvent, HandledView, process_spec};
use crate::text::{owned, push_str};

verus! {

/// `value` wrapped in the ANSI color `code` when `color` is on.
pub open spec fn painted(value: Seq<char>, code: Seq<char>, color: bool) -> Seq<char> {
    if color {
        "\u{1b}["@ + code + "m"@ + value + "\u{1b}[0m"@
    } else {
        value
    }
}

/// `value` wrapped in the ANSI color `code` when `color` is on.
pub fn paint(value: &str, code: &str, color: bool) -> (r: String)
    ensures
        r@ == painted(value@, code@, color),
{
    if color {
        let mut s = owned("\u{1b}[");
        push_str(&mut s, code);
        push_str(&mut s, "m");
        push_str(&mut s, value);
        push_str(&mut s, "\u{1b}[0m");
        s
    } else {
        owned(value)
    }
}

/// The listener's line for a shortcut: the shortcut, then `unmatched`, or `matched`, the
/// action's type and its value; shortcut cyan, `matched` green, `unmatched` yellow and the
/// type magenta when colored; fields apart by two spaces.
pub open spec fn observation_line_spec(shortcut: Seq<char>, action: Option<ActionView>, color: bool) -> Seq<
    char,
> {
    match action {
        None => painted(shortcut, "36"@, color) + "  "@ + painted("unmatched"@, "33"@, color),
        Some(a) => painted(shortcut, "36"@, color) + "  "@ + painted("matched"@, "32"@, color) + "  "@
            + painted(action_kind(a), "35"@, color) + "  "@ + action_value(a),
    }
}

pub open spec fn action_option_view(action: Option<&Action>) -> Option<ActionView> {
    match action {
        Some(a) => Some(a@),
        None => None,
    }
}

/// The listener's line for a shortcut and the action it matched, if any.
pub fn observation_line(shortcut: &str, action: Option<&Action>, color: bool) -> (r: String)
    ensures
        r@ == observation_line_spec(shortcut@, action_option_view(action), color),
{
    let mut line = paint(shortcut, "36", color);
    push_str(&mut line, "  ");
    match action {
        None => {
            let unmatched = paint("unmatched", "33", color);
            push_str(&mut line, unmatched.as_str());
        },
        Some(a) => {
            let matched = paint("matched", "32", color);
            push_str(&mut line, matched.as_str());
            push_str(&mut line, "  ");
            let (kind, value) = a.type_and_value();
            let kind = paint(kind, "35", color);
            push_str(&mut line, kind.as_str());
            push_str(&mut line, "  ");
            push_str(&mut line, value.as_str());
        },
    }
    line
}

/// What the listener prints for a handled event: nothing unless the event formed a chord;
/// otherwise the line for that chord and the action it triggered, if any.
pub open spec fn observation_spec(handled: HandledView, color: bool) -> Option<Seq<char>> {
    match handled.1 {
        None => None,
        Some(c) => Some(
            observation_line_spec(
                chord_text(c),
                match handled.0 {
                    DecisionView::Trigger(a) => Some(a),
                    _ => None,
                },
                color,
            ),
        ),
    }
}

/// The line the listener prints for a handled event, if any.
pub fn observation_for(handled: &HandledEvent, color: bool) -> (r: Option<String>)
    ensures
        match r {
            Some(line) => observation_spec(handled@, color) == Some(line@),
            None => observation_spec(handled@, color) is None,
        },
{
    match &handled.chord {
        None => None,
        Some(chord) => {
            let shortcut = chord.to_string();
            let action = match &handled.decision {
                Decision::Trigger(a) => Some(a),
                _ => None,
            };
            Some(observation_line(shortcut.as_str(), action, color))
        },
    }
}


// ---------------------------------------------------------------------------
// Laws
// ---------------------------------------------------------------------------

/// Modifier events, key releases and key repeats print nothing: only a fresh key press
/// forms a chord to report.
pub proof fn lemma_only_fresh_presses_are_observed(
    cfg: CompiledConfig,
    st: EngineState,
    pending: Option<CompiledConfig>,
    received: Seq<CompiledConfig>,
    input: InputView,
    color: bool,
)
    requires
        match input {
            InputView::Modifier { .. } => true,
            InputView::Key { kind, repeat, .. } => kind == EventKind::Up || repeat,
        },
    ensures
        observation_spec(process_spec(cfg, st, pending, received, input, true).3, color) is None,
{
}

/// Without color a line holds no escape character beyond those of the shortcut and the
/// action's value: piped output carries no ANSI color.
pub proof fn lemma_uncolored_lines_have_no_escapes(shortcut: Seq<char>, action: Option<ActionView>)
    requires
        !shortcut.contains('\u{1b}'),
        action matches Some(a) ==> !action_value(a).contains('\u{1b}'),
    ensures
        !observation_line_spec(shortcut, action, false).contains('\u{1b}'),
{
    reveal_strlit("  ");
    reveal_strlit("unmatched");
    reveal_strlit("matched");
    reveal_strlit("app");
    reveal_strlit("url");
    reveal_strlit("command");
    reveal_strlit("keys");
    let line = observation_line_spec(shortcut, action, false);
    assert forall|i: int| 0 <= i < line.len() implies line[i] != '\u{1b}' by {
        match action {
            None => {
                let a = shortcut + "  "@;
                if i < shortcut.len() {
                    assert(line[i] == shortcut[i]);
                } else if i < a.len() {
                    assert(line[i] == a[i]);
                } else {
                    assert(line[i] == "unmatched"@[i - a.len()]);
                }
            },
            Some(act) => {
                let k = action_kind(act);
                let v = action_value(act);
                let p1 = shortcut + "  "@;
                let p2 = p1 + "matched"@;
                let p3 = p2 + "  "@;
                let p4 = p3 + k;
                let p5 = p4 + "  "@;
                assert(line == p5 + v);
                if i < shortcut.len() {
                    assert(line[i] == shortcut[i]);
                } else if i < p1.len() {
                    assert(line[i] == "  "@[i - shortcut.len()]);
                } else if i < p2.len() {
                    assert(line[i] == "matched"@[i - p1.len()]);
                } else if i < p3.len() {
                    assert(line[i] == "  "@[i - p2.len()]);
                } else if i < p4.len() {
                    assert(line[i] == k[i - p3.len()]);
                    assert(k[i - p3.len()] != '\u{1b}');
                } else if i < p5.len() {
                    assert(line[i] == "  "@[i - p4.len()]);
                } else {
                    assert(line[i] == v[i - p5.len()]);
                }
            },
        }
    }
}

} // verus!
