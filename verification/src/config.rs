//! Configuration: what a binding does, how a configuration compiles, and which
//! binding a pressed chord selects.
use vstd::prelude::*;

use crate::key::{
    Chord, ChordView, Key, Modifier, ModifierView, builtin_rank, chord_text, clone_modifiers,
    framed_message, is_key_name, is_side_specific_rank, modifier_matches, modifier_views,
    normalize_chars, normalize_key, normalize_name, parse_chord_spec, parse_key_spec,
    parse_modifier_spec, parse_modifiers_spec, names_of, is_key_chars, normalize_key_chars,
    is_ascii_alnum_exec, parse_modifier_chars,
};
use crate::text::{
    chars_of, decimal_text, is_ascii_alnum, is_control, is_control_exec, owned, push_char,
    push_chars, push_decimal, push_str, str_eq, string_of, text_lt, trim, trim_chars,
    compare_chars, lemma_text_lt_trichotomy, lemma_text_lt_transitive, lemma_text_lt_irreflexive,
};

verus! {

/// How many characters of text one summary field keeps.
pub const MAX_BINDING_SUMMARY_TEXT_CHARS: usize = 160;

/// How many enabled Hyper bindings the cheatsheet can show.
pub const MAX_BINDING_SUMMARY_ROWS: usize = 64;

/// What an `app` action does with its application.
#[derive(Clone, Copy, Debug, PartialEq, Eq, Structural)]
pub enum AppBehavior {
    Launch,
    Toggle,
    Hide,
    Cycle,
    NewWindow,
}

/// When an action's outcome is reported.
#[derive(Clone, Copy, Debug, PartialEq, Eq, Structural)]
pub enum FeedbackPolicy {
    Off,
    Errors,
    All,
}

/// How an outcome is reported.
#[derive(Clone, Copy, Debug, PartialEq, Eq, Structural)]
pub enum FeedbackStyle {
    Notification,
}

/// The `[ui]` settings.
#[derive(Clone, Copy, Debug, PartialEq, Eq, Structural)]
pub struct UiConfig {
    pub feedback: FeedbackPolicy,
    pub style: FeedbackStyle,
    pub cheatsheet: bool,
    pub cheatsheet_delay_ms: u64,
}

impl Default for AppBehavior {
    fn default() -> (r: AppBehavior)
        ensures
            r == AppBehavior::Launch,
    {
        AppBehavior::Launch
    }
}

impl Default for FeedbackPolicy {
    fn default() -> (r: FeedbackPolicy)
        ensures
            r == FeedbackPolicy::Errors,
    {
        FeedbackPolicy::Errors
    }
}

impl Default for FeedbackStyle {
    fn default() -> (r: FeedbackStyle)
        ensures
            r == FeedbackStyle::Notification,
    {
        FeedbackStyle::Notification
    }
}

impl Default for UiConfig {
    fn default() -> (r: UiConfig)
        ensures
            r == (UiConfig {
                feedback: FeedbackPolicy::Errors,
                style: FeedbackStyle::Notification,
                cheatsheet: true,
                cheatsheet_delay_ms: 1000,
            }),
    {
        UiConfig {
            feedback: FeedbackPolicy::Errors,
            style: FeedbackStyle::Notification,
            cheatsheet: true,
            cheatsheet_delay_ms: 1000,
        }
    }
}

pub open spec fn unknown_behavior_msg(value: Seq<char>) -> Seq<char> {
    "unknown app behavior `"@ + value
        + "`; expected `launch`, `toggle`, `hide`, `cycle`, or `new_window`"@
}

/// What parsing an app behavior gives: the exact lowercase name.
pub open spec fn parse_behavior_spec(value: Seq<char>) -> Result<AppBehavior, Seq<char>> {
    if value == "launch"@ {
        Ok(AppBehavior::Launch)
    } else if value == "toggle"@ {
        Ok(AppBehavior::Toggle)
    } else if value == "hide"@ {
        Ok(AppBehavior::Hide)
    } else if value == "cycle"@ {
        Ok(AppBehavior::Cycle)
    } else if value == "new_window"@ {
        Ok(AppBehavior::NewWindow)
    } else {
        Err(unknown_behavior_msg(value))
    }
}

/// What parsing a feedback policy gives.
pub open spec fn parse_feedback_spec(value: Seq<char>) -> Result<FeedbackPolicy, Seq<char>> {
    if value == "off"@ {
        Ok(FeedbackPolicy::Off)
    } else if value == "errors"@ {
        Ok(FeedbackPolicy::Errors)
    } else if value == "all"@ {
        Ok(FeedbackPolicy::All)
    } else {
        Err("unknown feedback `"@ + value + "`; expected `off`, `errors`, or `all`"@)
    }
}

/// What parsing a feedback style gives.
pub open spec fn parse_style_spec(value: Seq<char>) -> Result<FeedbackStyle, Seq<char>> {
    if value == "notification"@ {
        Ok(FeedbackStyle::Notification)
    } else {
        Err("unknown feedback style `"@ + value + "`; expected `notification`"@)
    }
}

impl AppBehavior {
    pub fn parse(value: &str) -> (r: Result<AppBehavior, String>)
        ensures
            r matches Ok(b) ==> parse_behavior_spec(value@) == Ok::<AppBehavior, Seq<char>>(b),
            r matches Err(e) ==> parse_behavior_spec(value@) == Err::<AppBehavior, Seq<char>>(
                e@,
            ),
    {
        if str_eq(value, "launch") {
            Ok(AppBehavior::Launch)
        } else if str_eq(value, "toggle") {
            Ok(AppBehavior::Toggle)
        } else if str_eq(value, "hide") {
            Ok(AppBehavior::Hide)
        } else if str_eq(value, "cycle") {
            Ok(AppBehavior::Cycle)
        } else if str_eq(value, "new_window") {
            Ok(AppBehavior::NewWindow)
        } else {
            let v = chars_of(value);
            Err(
                framed_message(
                    "unknown app behavior `",
                    v.as_slice(),
                    "`; expected `launch`, `toggle`, `hide`, `cycle`, or `new_window`",
                ),
            )
        }
    }
}

impl std::str::FromStr for AppBehavior {
    type Err = String;

    fn from_str(value: &str) -> (r: Result<AppBehavior, String>)
        ensures
            r matches Ok(b) ==> parse_behavior_spec(value@) == Ok::<AppBehavior, Seq<char>>(b),
            r matches Err(e) ==> parse_behavior_spec(value@) == Err::<AppBehavior, Seq<char>>(
                e@,
            ),
    {
        AppBehavior::parse(value)
    }
}

impl FeedbackPolicy {
    pub fn parse(value: &str) -> (r: Result<FeedbackPolicy, String>)
        ensures
            r matches Ok(b) ==> parse_feedback_spec(value@) == Ok::<FeedbackPolicy, Seq<char>>(
                b,
            ),
            r matches Err(e) ==> parse_feedback_spec(value@) == Err::<FeedbackPolicy, Seq<char>>(
                e@,
            ),
    {
        if str_eq(value, "off") {
            Ok(FeedbackPolicy::Off)
        } else if str_eq(value, "errors") {
            Ok(FeedbackPolicy::Errors)
        } else if str_eq(value, "all") {
            Ok(FeedbackPolicy::All)
        } else {
            let v = chars_of(value);
            Err(
                framed_message(
                    "unknown feedback `",
                    v.as_slice(),
                    "`; expected `off`, `errors`, or `all`",
                ),
            )
        }
    }
}

impl FeedbackStyle {
    pub fn parse(value: &str) -> (r: Result<FeedbackStyle, String>)
        ensures
            r matches Ok(b) ==> parse_style_spec(value@) == Ok::<FeedbackStyle, Seq<char>>(b),
            r matches Err(e) ==> parse_style_spec(value@) == Err::<FeedbackStyle, Seq<char>>(
                e@,
            ),
    {
        if str_eq(value, "notification") {
            Ok(FeedbackStyle::Notification)
        } else {
            let v = chars_of(value);
            Err(framed_message("unknown feedback style `", v.as_slice(), "`; expected `notification`"))
        }
    }
}

// ---------------------------------------------------------------------------
// Actions
// ---------------------------------------------------------------------------

/// Launch, toggle, hide, cycle or open a new window of an application.
#[derive(Debug, PartialEq, Eq)]
pub struct AppAction {
    pub target: String,
    pub behavior: AppBehavior,
}

/// What a binding does.
#[derive(Debug, PartialEq, Eq)]
pub enum Action {
    App(AppAction),
    OpenUrl(String),
    RunCommand(String),
    SendKeys(Chord),
}

/// An action as a value.
pub enum ActionView {
    App { target: Seq<char>, behavior: AppBehavior },
    OpenUrl(Seq<char>),
    RunCommand(Seq<char>),
    SendKeys(ChordView),
}

impl View for Action {
    type V = ActionView;

    open spec fn view(&self) -> ActionView {
        match self {
            Action::App(a) => ActionView::App { target: a.target@, behavior: a.behavior },
            Action::OpenUrl(u) => ActionView::OpenUrl(u@),
            Action::RunCommand(c) => ActionView::RunCommand(c@),
            Action::SendKeys(c) => ActionView::SendKeys(c@),
        }
    }
}

/// The text that names an app action: its target and, unless it launches, its behavior.
pub open spec fn app_display(target: Seq<char>, behavior: AppBehavior) -> Seq<char> {
    match behavior {
        AppBehavior::Launch => target,
        AppBehavior::Toggle => target + " (toggle)"@,
        AppBehavior::Hide => target + " (hide)"@,
        AppBehavior::Cycle => target + " (cycle)"@,
        AppBehavior::NewWindow => target + " (new window)"@,
    }
}

/// The type name of an action.
pub open spec fn action_kind(a: ActionView) -> Seq<char> {
    match a {
        ActionView::App { .. } => "app"@,
        ActionView::OpenUrl(_) => "url"@,
        ActionView::RunCommand(_) => "command"@,
        ActionView::SendKeys(_) => "keys"@,
    }
}

/// The value an action shows.
pub open spec fn action_value(a: ActionView) -> Seq<char> {
    match a {
        ActionView::App { target, behavior } => app_display(target, behavior),
        ActionView::OpenUrl(u) => u,
        ActionView::RunCommand(c) => c,
        ActionView::SendKeys(c) => chord_text(c),
    }
}

impl AppAction {
    pub fn display_value(&self) -> (r: String)
        ensures
            r@ == app_display(self.target@, self.behavior),
    {
        let mut s = owned(self.target.as_str());
        match self.behavior {
            AppBehavior::Launch => {},
            AppBehavior::Toggle => push_str(&mut s, " (toggle)"),
            AppBehavior::Hide => push_str(&mut s, " (hide)"),
            AppBehavior::Cycle => push_str(&mut s, " (cycle)"),
            AppBehavior::NewWindow => push_str(&mut s, " (new window)"),
        }
        s
    }
}

impl Clone for AppAction {
    fn clone(&self) -> (r: AppAction)
        ensures
            r.target@ == self.target@,
            r.behavior == self.behavior,
    {
        AppAction { target: self.target.clone(), behavior: self.behavior }
    }
}

impl Action {
    /// The action's type name and the value it shows.
    pub fn type_and_value(&self) -> (r: (&'static str, String))
        ensures
            r.0@ == action_kind(self@),
            r.1@ == action_value(self@),
    {
        match self {
            Action::App(a) => ("app", a.display_value()),
            Action::OpenUrl(u) => ("url", u.clone()),
            Action::RunCommand(c) => ("command", c.clone()),
            Action::SendKeys(c) => ("keys", c.to_string()),
        }
    }
}

impl Clone for Action {
    fn clone(&self) -> (r: Action)
        ensures
            r@ == self@,
    {
        match self {
            Action::App(a) => Action::App(a.clone()),
            Action::OpenUrl(u) => Action::OpenUrl(u.clone()),
            Action::RunCommand(c) => Action::RunCommand(c.clone()),
            Action::SendKeys(c) => Action::SendKeys(c.clone()),
        }
    }
}

// ---------------------------------------------------------------------------
// Binding summaries
// ---------------------------------------------------------------------------

/// One row of the Hyper cheatsheet.
#[derive(Debug, PartialEq, Eq)]
pub struct BindingSummary {
    pub key: String,
    pub kind: String,
    pub action: String,
}

pub type BindingSummaryView = (Seq<char>, Seq<char>, Seq<char>);

impl View for BindingSummary {
    type V = BindingSummaryView;

    open spec fn view(&self) -> BindingSummaryView {
        (self.key@, self.kind@, self.action@)
    }
}

impl Clone for BindingSummary {
    fn clone(&self) -> (r: BindingSummary)
        ensures
            r@ == self@,
    {
        BindingSummary {
            key: self.key.clone(),
            kind: self.kind.clone(),
            action: self.action.clone(),
        }
    }
}

/// Control characters become spaces; text longer than the limit keeps one
/// character less than the limit and ends in `…`.
pub open spec fn bounded_text(value: Seq<char>) -> Seq<char> {
    let spaced = value.map_values(|c: char| if is_control(c) { ' ' } else { c });
    if value.len() > 160 {
        spaced.take(159).push('…')
    } else {
        spaced
    }
}

/// The modifiers other than Hyper, in order.
pub open spec fn without_hyper(ms: Seq<ModifierView>) -> Seq<ModifierView>
    decreases ms.len(),
{
    if ms.len() == 0 {
        Seq::empty()
    } else if ms.last().0 == 0 {
        without_hyper(ms.drop_last())
    } else {
        without_hyper(ms.drop_last()).push(ms.last())
    }
}

/// The cheatsheet row of a binding: its chord without Hyper, its type and its value.
pub open spec fn summary_spec(c: ChordView, a: ActionView) -> BindingSummaryView {
    (
        chord_text((without_hyper(c.0), c.1)),
        bounded_text(action_kind(a)),
        bounded_text(action_value(a)),
    )
}

pub fn bounded_summary_text(value: &str) -> (r: String)
    ensures
        r@ == bounded_text(value@),
{
    let v = chars_of(value);
    let ghost spaced = value@.map_values(|c: char| if is_control(c) { ' ' } else { c });
    let mut s = String::new();
    let mut i: usize = 0;
    let limit: usize = if v.len() > MAX_BINDING_SUMMARY_TEXT_CHARS {
        MAX_BINDING_SUMMARY_TEXT_CHARS - 1
    } else {
        v.len()
    };
    while i < limit
        invariant
            limit <= v.len(),
            v@ == value@,
            i <= limit,
            s@ == spaced.take(i as int),
            spaced == value@.map_values(|c: char| if is_control(c) { ' ' } else { c }),
        decreases limit - i,
    {
        let c = v[i];
        push_char(&mut s, if is_control_exec(c) { ' ' } else { c });
        i = i + 1;
        proof {
            assert(s@ =~= spaced.take(i as int));
        }
    }
    if v.len() > MAX_BINDING_SUMMARY_TEXT_CHARS {
        push_char(&mut s, '…');
    } else {
        proof {
            assert(spaced.take(i as int) =~= spaced);
        }
    }
    s
}

/// The cheatsheet row of a binding.
pub fn binding_summary(chord: &Chord, action: &Action) -> (r: BindingSummary)
    ensures
        r@ == summary_spec(chord@, action@),
{
    let mut key = String::new();
    let mut i: usize = 0;
    let ghost kept = without_hyper(chord@.0);
    while i < chord.modifiers.len()
        invariant
            i <= chord.modifiers.len(),
            key@ == crate::key::modifiers_text(without_hyper(chord@.0.take(i as int))),
        decreases chord.modifiers.len() - i,
    {
        proof {
            assert(chord@.0.take(i + 1).drop_last() =~= chord@.0.take(i as int));
            assert(chord@.0.take(i + 1).last() == chord.modifiers@[i as int]@);
        }
        if chord.modifiers[i].rank() != 0 {
            let ghost kept_before = without_hyper(chord@.0.take(i as int));
            push_str(&mut key, chord.modifiers[i].as_str());
            push_str(&mut key, "+");
            proof {
                let m = chord.modifiers@[i as int]@;
                assert(without_hyper(chord@.0.take(i + 1)) == kept_before.push(m));
                assert(kept_before.push(m).drop_last() =~= kept_before);
            }
        }
        i = i + 1;
    }
    proof {
        assert(chord@.0.take(chord@.0.len() as int) =~= chord@.0);
    }
    push_str(&mut key, chord.key.as_str());
    let (kind, value) = action.type_and_value();
    BindingSummary {
        key,
        kind: bounded_summary_text(kind),
        action: bounded_summary_text(value.as_str()),
    }
}

// ---------------------------------------------------------------------------
// Matching a pressed chord to a binding
// ---------------------------------------------------------------------------

/// Some held modifier satisfies a wanted one.
pub open spec fn satisfied(wanted: ModifierView, held: Seq<ModifierView>) -> bool {
    exists|j: int| 0 <= j < held.len() && modifier_matches(wanted, #[trigger] held[j])
}

/// Some wanted modifier is satisfied by a held one.
pub open spec fn accounted(held: ModifierView, wanted: Seq<ModifierView>) -> bool {
    exists|i: int| 0 <= i < wanted.len() && modifier_matches(#[trigger] wanted[i], held)
}

/// Every wanted modifier is satisfied by a held one and every held modifier by a wanted one.
#[verifier::opaque]
pub open spec fn chord_matches_spec(binding: ChordView, actual: ChordView) -> bool {
    &&& binding.1 == actual.1
    &&& forall|i: int| 0 <= i < binding.0.len() ==> satisfied(#[trigger] binding.0[i], actual.0)
    &&& forall|j: int| 0 <= j < actual.0.len() ==> accounted(#[trigger] actual.0[j], binding.0)
}

fn is_satisfied(wanted: &Modifier, held: &[Modifier]) -> (r: bool)
    ensures
        r == satisfied(wanted@, modifier_views(held@)),
{
    let mut j: usize = 0;
    while j < held.len()
        invariant
            j <= held.len(),
            forall|k: int| 0 <= k < j ==> !modifier_matches(wanted@, #[trigger] held@[k]@),
        decreases held.len() - j,
    {
        if wanted.matches(&held[j]) {
            proof {
                assert(modifier_views(held@)[j as int] == held@[j as int]@);
            }
            return true;
        }
        j = j + 1;
    }
    proof {
        if satisfied(wanted@, modifier_views(held@)) {
            let k = choose|k: int|
                0 <= k < modifier_views(held@).len() && modifier_matches(
                    wanted@,
                    #[trigger] modifier_views(held@)[k],
                );
            assert(modifier_views(held@)[k] == held@[k]@);
        }
    }
    false
}

fn is_accounted(held: &Modifier, wanted: &[Modifier]) -> (r: bool)
    ensures
        r == accounted(held@, modifier_views(wanted@)),
{
    let mut i: usize = 0;
    while i < wanted.len()
        invariant
            i <= wanted.len(),
            forall|k: int| 0 <= k < i ==> !modifier_matches(#[trigger] wanted@[k]@, held@),
        decreases wanted.len() - i,
    {
        if wanted[i].matches(held) {
            proof {
                assert(modifier_views(wanted@)[i as int] == wanted@[i as int]@);
            }
            return true;
        }
        i = i + 1;
    }
    proof {
        if accounted(held@, modifier_views(wanted@)) {
            let k = choose|k: int|
                0 <= k < modifier_views(wanted@).len() && modifier_matches(
                    #[trigger] modifier_views(wanted@)[k],
                    held@,
                );
            assert(modifier_views(wanted@)[k] == wanted@[k]@);
        }
    }
    false
}

pub fn chord_matches(binding: &Chord, actual: &Chord) -> (r: bool)
    ensures
        r == chord_matches_spec(binding@, actual@),
{
    reveal(chord_matches_spec);
    if !binding.key.same(&actual.key) {
        return false;
    }
    let mut i: usize = 0;
    while i < binding.modifiers.len()
        invariant
            i <= binding.modifiers.len(),
            forall|k: int| 0 <= k < i ==> satisfied(#[trigger] binding@.0[k], actual@.0),
        decreases binding.modifiers.len() - i,
    {
        if !is_satisfied(&binding.modifiers[i], actual.modifiers.as_slice()) {
            proof {
                assert(binding@.0[i as int] == binding.modifiers@[i as int]@);
                assert(!satisfied(binding@.0[i as int], actual@.0));
                reveal(chord_matches_spec);
            }
            return false;
        }
        i = i + 1;
    }
    let mut j: usize = 0;
    while j < actual.modifiers.len()
        invariant
            j <= actual.modifiers.len(),
            forall|k: int| 0 <= k < j ==> accounted(#[trigger] actual@.0[k], binding@.0),
        decreases actual.modifiers.len() - j,
    {
        if !is_accounted(&actual.modifiers[j], binding.modifiers.as_slice()) {
            proof {
                assert(actual@.0[j as int] == actual.modifiers@[j as int]@);
                assert(!accounted(actual@.0[j as int], binding@.0));
                reveal(chord_matches_spec);
            }
            return false;
        }
        j = j + 1;
    }
    true
}

/// How many side-specific modifiers a chord names.
pub open spec fn side_count(ms: Seq<ModifierView>) -> nat
    decreases ms.len(),
{
    if ms.len() == 0 {
        0
    } else {
        side_count(ms.drop_last()) + if is_side_specific_rank(ms.last().0) {
            1nat
        } else {
            0nat
        }
    }
}

/// The binding a chord selects among `list`: of the matching ones, the one naming the most
/// side-specific modifiers, and of those the last.
pub open spec fn best_binding(list: Seq<(ChordView, ActionView)>, actual: ChordView) -> Option<int>
    decreases list.len(),
{
    if list.len() == 0 {
        None
    } else {
        let prev = best_binding(list.drop_last(), actual);
        let i = list.len() - 1;
        if chord_matches_spec(list[i].0, actual) && (prev matches Some(p) ==> side_count(
            list[p].0.0,
        ) <= side_count(list[i].0.0)) {
            Some(i)
        } else {
            prev
        }
    }
}

/// The number of side-specific modifiers of a chord.
pub fn side_specific_count(c: &Chord) -> (r: usize)
    ensures
        r as nat == side_count(c@.0),
{
    let mut n: usize = 0;
    let mut i: usize = 0;
    while i < c.modifiers.len()
        invariant
            i <= c.modifiers.len(),
            n as nat == side_count(c@.0.take(i as int)),
            n <= i,
        decreases c.modifiers.len() - i,
    {
        proof {
            assert(c@.0.take(i + 1).drop_last() =~= c@.0.take(i as int));
            assert(c@.0.take(i + 1).last() == c.modifiers@[i as int]@);
        }
        if c.modifiers[i].is_side_specific() {
            n = n + 1;
        }
        i = i + 1;
    }
    proof {
        assert(c@.0.take(c@.0.len() as int) =~= c@.0);
    }
    n
}

/// Bindings as values, in order.
pub open spec fn binding_list_view(list: Seq<(Chord, Action)>) -> Seq<(ChordView, ActionView)> {
    list.map_values(|e: (Chord, Action)| (e.0@, e.1@))
}

/// The index of the binding `actual` selects.
pub fn select_binding(list: &Vec<(Chord, Action)>, actual: &Chord) -> (r: Option<usize>)
    ensures
        r matches Some(i) ==> i < list@.len() && best_binding(binding_list_view(list@), actual@)
            == Some(i as int),
        r is None ==> best_binding(binding_list_view(list@), actual@) is None,
{
    let ghost lv = binding_list_view(list@);
    let mut best: Option<usize> = None;
    let mut best_count: usize = 0;
    let mut i: usize = 0;
    while i < list.len()
        invariant
            i <= list.len(),
            lv == binding_list_view(list@),
            best matches Some(b) ==> b < i && best_binding(lv.take(i as int), actual@) == Some(
                b as int,
            ) && best_count as nat == side_count(lv[b as int].0.0),
            best is None ==> best_binding(lv.take(i as int), actual@) is None,
        decreases list.len() - i,
    {
        let ghost t = lv.take(i + 1);
        proof {
            assert(t.drop_last() =~= lv.take(i as int));
            assert(t[i as int] == lv[i as int]);
            if let Some(b) = best {
                assert(t[b as int] == lv[b as int]);
            }
        }
        if chord_matches(&list[i].0, actual) {
            let count = side_specific_count(&list[i].0);
            let better = match best {
                None => true,
                Some(_) => best_count <= count,
            };
            if better {
                best = Some(i);
                best_count = count;
            }
        }
        i = i + 1;
    }
    proof {
        assert(lv.take(list.len() as int) =~= lv);
    }
    best
}

// ---------------------------------------------------------------------------
// Configuration as written
// ---------------------------------------------------------------------------

/// The `[hyper]` table.
#[derive(Debug)]
pub struct HyperSpec {
    pub key: String,
    pub tap: String,
    pub modifiers: Vec<String>,
}

impl Default for HyperSpec {
    fn default() -> (r: HyperSpec)
        ensures
            r.key@ == "caps_lock"@,
            r.tap@ == "escape"@,
            r.modifiers@.map_values(|m: String| m@) == seq!["command"@, "control"@, "option"@, "shift"@],
    {
        let mut modifiers: Vec<String> = Vec::new();
        modifiers.push(owned("command"));
        modifiers.push(owned("control"));
        modifiers.push(owned("option"));
        modifiers.push(owned("shift"));
        proof {
            assert(modifiers@.map_values(|m: String| m@) =~= seq!["command"@, "control"@, "option"@, "shift"@]);
        }
        HyperSpec { key: owned("caps_lock"), tap: owned("escape"), modifiers }
    }
}

/// One entry of `[bindings]`.
#[derive(Debug)]
pub struct BindingSpec {
    pub app: Option<String>,
    pub behavior: Option<String>,
    pub url: Option<String>,
    pub command: Option<String>,
    pub keys: Option<String>,
    pub enabled: bool,
}

/// One `[[dual_role]]` entry: a key that taps as `tap` and, held, acts as a named modifier.
#[derive(Debug)]
pub struct DualRoleSpec {
    pub key: String,
    pub tap: String,
    pub hold_modifier: String,
}

/// A configuration as written; `bindings` lists chords and their bindings in the order
/// a TOML table gives them (sorted by chord text).
#[derive(Debug)]
pub struct Config {
    pub hyper: HyperSpec,
    pub bindings: Vec<(String, BindingSpec)>,
    pub ui: UiConfig,
    pub dual_role: Vec<DualRoleSpec>,
}

/// The compiled Hyper key.
#[derive(Debug)]
pub struct Hyper {
    pub key: Key,
    pub tap: Chord,
    pub modifiers: Vec<Modifier>,
}

/// A compiled dual-role key.
#[derive(Debug)]
pub struct DualRole {
    pub key: Key,
    pub tap: Chord,
    pub hold_modifier: String,
}

pub type HyperView = (Seq<char>, ChordView, Seq<ModifierView>);

pub type DualRoleView = (Seq<char>, ChordView, Seq<char>);

impl View for Hyper {
    type V = HyperView;

    open spec fn view(&self) -> HyperView {
        (self.key@, self.tap@, modifier_views(self.modifiers@))
    }
}

impl View for DualRole {
    type V = DualRoleView;

    open spec fn view(&self) -> DualRoleView {
        (self.key@, self.tap@, self.hold_modifier@)
    }
}

impl Clone for Hyper {
    fn clone(&self) -> (r: Hyper)
        ensures
            r@ == self@,
    {
        Hyper {
            key: self.key.clone(),
            tap: self.tap.clone(),
            modifiers: clone_modifiers(self.modifiers.as_slice()),
        }
    }
}

impl Clone for DualRole {
    fn clone(&self) -> (r: DualRole)
        ensures
            r@ == self@,
    {
        DualRole {
            key: self.key.clone(),
            tap: self.tap.clone(),
            hold_modifier: self.hold_modifier.clone(),
        }
    }
}

pub open spec fn dual_role_views(roles: Seq<DualRole>) -> Seq<DualRoleView> {
    roles.map_values(|r: DualRole| r@)
}

pub open spec fn string_views(v: Seq<String>) -> Seq<Seq<char>> {
    v.map_values(|s: String| s@)
}

pub open spec fn exactly_one_msg() -> Seq<char> {
    "a binding must define exactly one of `app`, `url`, `command`, or `keys`"@
}

pub open spec fn empty_field_msg(field: Seq<char>) -> Seq<char> {
    "`"@ + field + "` cannot be empty"@
}

pub open spec fn opt_count(o: Option<String>) -> nat {
    if o is Some {
        1
    } else {
        0
    }
}

/// What a binding's action compiles to.
pub open spec fn binding_action_spec(b: BindingSpec) -> Result<ActionView, Seq<char>> {
    if opt_count(b.app) + opt_count(b.url) + opt_count(b.command) + opt_count(b.keys) != 1 {
        Err(exactly_one_msg())
    } else if b.behavior is Some && b.app is None {
        Err("`behavior` is only valid with `app`"@)
    } else if b.app is Some {
        let app = b.app->0@;
        if trim(app).len() == 0 {
            Err(empty_field_msg("app"@))
        } else {
            let behavior = match b.behavior {
                Some(x) => x@,
                None => "launch"@,
            };
            match parse_behavior_spec(behavior) {
                Err(e) => Err(e),
                Ok(k) => Ok(ActionView::App { target: app, behavior: k }),
            }
        }
    } else if b.url is Some {
        if trim(b.url->0@).len() == 0 {
            Err(empty_field_msg("url"@))
        } else {
            Ok(ActionView::OpenUrl(b.url->0@))
        }
    } else if b.command is Some {
        if trim(b.command->0@).len() == 0 {
            Err(empty_field_msg("command"@))
        } else {
            Ok(ActionView::RunCommand(b.command->0@))
        }
    } else {
        match parse_chord_spec(b.keys->0@, Seq::empty()) {
            Err(e) => Err("invalid `keys` action: "@ + e),
            Ok(c) => if c.0.contains((0nat, Seq::<char>::empty())) {
                Err("a `keys` action cannot emit the virtual `hyper` modifier"@)
            } else {
                Ok(ActionView::SendKeys(c))
            },
        }
    }
}

/// What the `[hyper]` table compiles to.
pub open spec fn hyper_spec(h: HyperSpec) -> Result<HyperView, Seq<char>> {
    match parse_key_spec(h.key@) {
        Err(e) => Err("invalid hyper key: "@ + e),
        Ok(k) => match parse_chord_spec(h.tap@, Seq::empty()) {
            Err(e) => Err("invalid hyper tap action: "@ + e),
            Ok(t) => match parse_modifiers_spec(string_views(h.modifiers@), Seq::empty()) {
                Err(e) => Err("invalid hyper modifier: "@ + e),
                Ok(ms) => if ms.contains((0nat, Seq::<char>::empty())) {
                    Err("hyper modifiers cannot contain `hyper`"@)
                } else {
                    Ok((k, t, ms))
                },
            },
        },
    }
}

/// A name a dual-role key can hold: letters, digits and `_`.
pub open spec fn valid_modifier_name(n: Seq<char>) -> bool {
    n.len() > 0 && forall|i: int| 0 <= i < n.len() ==> (is_ascii_alnum(#[trigger] n[i]) || n[i]
        == '_')
}

/// A hold name that is already a built-in modifier or a key name.
pub open spec fn collides(n: Seq<char>) -> bool {
    builtin_rank(n) is Some || is_key_name(normalize_key(n))
}

/// Checks one dual-role entry against the hyper key and the entries before it.
pub open spec fn dual_role_step(
    prev: Seq<DualRoleView>,
    spec: DualRoleSpec,
    hyper_key: Seq<char>,
) -> Result<Seq<DualRoleView>, Seq<char>> {
    match parse_key_spec(spec.key@) {
        Err(e) => Err("invalid dual-role key: "@ + e),
        Ok(k) => match parse_chord_spec(spec.tap@, Seq::empty()) {
            Err(e) => Err("invalid dual-role tap: "@ + e),
            Ok(t) => {
                let h = normalize_name(spec.hold_modifier@);
                if !valid_modifier_name(h) {
                    Err("hold modifier `"@ + spec.hold_modifier@ + "` is not a valid modifier name"@)
                } else if h == "hyper"@ {
                    Err("hold modifier `hyper` is reserved"@)
                } else if collides(h) {
                    Err("hold modifier `"@ + h + "` collides with a built-in modifier or key"@)
                } else if k == hyper_key {
                    Err("dual-role key `"@ + k + "` duplicates the hyper key"@)
                } else if exists|i: int| 0 <= i < prev.len() && (#[trigger] prev[i]).0 == k {
                    Err("duplicate dual-role key `"@ + k + "`"@)
                } else if exists|i: int| 0 <= i < prev.len() && (#[trigger] prev[i]).2 == h {
                    Err("duplicate hold modifier `"@ + h + "`"@)
                } else {
                    Ok(prev.push((k, t, h)))
                }
            },
        },
    }
}

/// What the `[[dual_role]]` entries compile to: checked in order, the first failure wins.
pub open spec fn dual_roles_spec(roles: Seq<DualRoleSpec>, hyper_key: Seq<char>) -> Result<
    Seq<DualRoleView>,
    Seq<char>,
>
    decreases roles.len(),
{
    if roles.len() == 0 {
        Ok(Seq::empty())
    } else {
        match dual_roles_spec(roles.drop_last(), hyper_key) {
            Err(e) => Err(e),
            Ok(prev) => dual_role_step(prev, roles.last(), hyper_key),
        }
    }
}

pub open spec fn invalid_binding_msg(source: Seq<char>, e: Seq<char>) -> Seq<char> {
    "invalid binding `"@ + source + "`: "@ + e
}

/// Compiles one binding after those before it.
pub open spec fn binding_step(
    prev: Seq<(ChordView, ActionView)>,
    source: Seq<char>,
    b: BindingSpec,
    named: Seq<Seq<char>>,
) -> Result<Seq<(ChordView, ActionView)>, Seq<char>> {
    if !b.enabled {
        Ok(prev)
    } else {
        match parse_chord_spec(source, named) {
            Err(e) => Err(invalid_binding_msg(source, e)),
            Ok(c) => if exists|i: int|
                0 <= i < prev.len() && chord_text((#[trigger] prev[i]).0) == chord_text(c) {
                Err("duplicate binding `"@ + chord_text(c) + "` after normalization"@)
            } else {
                match binding_action_spec(b) {
                    Err(e) => Err(invalid_binding_msg(source, e)),
                    Ok(a) => Ok(prev.push((c, a))),
                }
            },
        }
    }
}

/// What the bindings compile to: enabled ones, in order; the first failure wins.
pub open spec fn bindings_spec(entries: Seq<(String, BindingSpec)>, named: Seq<Seq<char>>) -> Result<
    Seq<(ChordView, ActionView)>,
    Seq<char>,
>
    decreases entries.len(),
{
    if entries.len() == 0 {
        Ok(Seq::empty())
    } else {
        match bindings_spec(entries.drop_last(), named) {
            Err(e) => Err(e),
            Ok(prev) => binding_step(prev, entries.last().0@, entries.last().1, named),
        }
    }
}

pub open spec fn is_hyper_chord(c: ChordView) -> bool {
    c.0.contains((0nat, Seq::<char>::empty()))
}

/// How many of the bindings use Hyper.
pub open spec fn hyper_count(list: Seq<(ChordView, ActionView)>) -> nat
    decreases list.len(),
{
    if list.len() == 0 {
        0
    } else {
        hyper_count(list.drop_last()) + if is_hyper_chord(list.last().0) {
            1nat
        } else {
            0nat
        }
    }
}

/// What a configuration compiles to: the Hyper key, the dual roles and the enabled
/// bindings in order; or the first error.
pub open spec fn compile_spec(cfg: Config) -> Result<
    (HyperView, Seq<DualRoleView>, Seq<(ChordView, ActionView)>),
    Seq<char>,
> {
    if cfg.ui.cheatsheet_delay_ms > 5000 {
        Err("`ui.cheatsheet_delay_ms` must be in 0..=5000"@)
    } else {
        match hyper_spec(cfg.hyper) {
            Err(e) => Err(e),
            Ok(h) => match dual_roles_spec(cfg.dual_role@, h.0) {
                Err(e) => Err(e),
                Ok(roles) => match bindings_spec(
                    cfg.bindings@,
                    roles.map_values(|r: DualRoleView| r.2),
                ) {
                    Err(e) => Err(e),
                    Ok(list) => if cfg.ui.cheatsheet && hyper_count(list) > 64 {
                        Err(
                            "`[ui].cheatsheet` requires at most 64 enabled Hyper bindings; found "@
                                + decimal_text(hyper_count(list)),
                        )
                    } else {
                        Ok((h, roles, list))
                    },
                },
            },
        }
    }
}

// ---------------------------------------------------------------------------
// Tables ordered by shortcut text
// ---------------------------------------------------------------------------

/// Entries ordered by their text, each text once.
pub open spec fn keys_sorted<T>(s: Seq<(String, T)>) -> bool {
    forall|i: int, j: int| 0 <= i < j < s.len() ==> text_lt(#[trigger] s[i].0@, #[trigger] s[j].0@)
}

/// Whether a text comes before another.
pub fn text_before(a: &str, b: &[char]) -> (r: bool)
    ensures
        r == text_lt(a@, b@),
{
    let x = chars_of(a);
    compare_chars(x.as_slice(), b) == -1
}

/// Inserts an entry at its place in a table ordered by text.
pub fn sorted_insert<T>(v: &mut Vec<(String, T)>, key: String, val: T)
    requires
        keys_sorted(old(v)@),
        forall|i: int| 0 <= i < old(v)@.len() ==> (#[trigger] old(v)@[i]).0@ != key@,
    ensures
        keys_sorted(final(v)@),
        exists|p: int| 0 <= p <= old(v)@.len() && final(v)@ == old(v)@.insert(p, (key, val)),
{
    let kc = chars_of(key.as_str());
    let mut j: usize = 0;
    while j < v.len() && text_before(v[j].0.as_str(), kc.as_slice())
        invariant
            j <= v.len(),
            kc@ == key@,
            v@ == old(v)@,
            keys_sorted(v@),
            forall|k: int| 0 <= k < j ==> text_lt((#[trigger] v@[k]).0@, key@),
        decreases v.len() - j,
    {
        j = j + 1;
    }
    proof {
        if j < v.len() {
            lemma_text_lt_trichotomy(v@[j as int].0@, key@);
        }
    }
    let ghost before = v@;
    v.insert(j, (key, val));
    proof {
        assert forall|a: int, b: int| 0 <= a < b < v@.len() implies text_lt(
            #[trigger] v@[a].0@,
            #[trigger] v@[b].0@,
        ) by {
            if b == j {
                assert(v@[a] == before[a]);
            } else if a == j {
                assert(v@[b] == before[b - 1]);
                if b - 1 > j {
                    lemma_text_lt_transitive(key@, before[j as int].0@, before[b - 1].0@);
                }
            } else if a < j && b > j {
                assert(v@[a] == before[a]);
                assert(v@[b] == before[b - 1]);
                if b - 1 > j {
                    lemma_text_lt_transitive(key@, before[j as int].0@, before[b - 1].0@);
                }
                lemma_text_lt_transitive(before[a].0@, key@, before[b - 1].0@);
            } else if b < j {
                assert(v@[a] == before[a] && v@[b] == before[b]);
            } else {
                assert(v@[a] == before[a - 1] && v@[b] == before[b - 1]);
            }
        }
    }
}

/// The compiled bindings by shortcut text, in text order.
#[derive(Debug)]
pub struct Bindings {
    entries: Vec<(String, Action)>,
}

pub type BindingsView = Seq<(Seq<char>, ActionView)>;

impl View for Bindings {
    type V = BindingsView;

    closed spec fn view(&self) -> BindingsView {
        self.entries@.map_values(|e: (String, Action)| (e.0@, e.1@))
    }
}

/// Entries strictly ordered by text.
pub open spec fn texts_sorted<T>(s: Seq<(Seq<char>, T)>) -> bool {
    forall|i: int, j: int| 0 <= i < j < s.len() ==> text_lt(#[trigger] s[i].0, #[trigger] s[j].0)
}

impl Bindings {
    #[verifier::type_invariant]
    closed spec fn wf(self) -> bool {
        keys_sorted(self.entries@)
    }

    pub fn len(&self) -> (r: usize)
        ensures
            r == self@.len(),
    {
        self.entries.len()
    }

    pub fn is_empty(&self) -> (r: bool)
        ensures
            r == (self@.len() == 0),
    {
        self.entries.len() == 0
    }

    /// The action bound to a shortcut text.
    pub fn get(&self, shortcut: &str) -> (r: Option<&Action>)
        ensures
            r matches Some(a) ==> exists|i: int|
                0 <= i < self@.len() && self@[i] == (shortcut@, a@),
            r is None ==> forall|i: int| 0 <= i < self@.len() ==> (#[trigger] self@[i]).0 != shortcut@,
    {
        let mut i: usize = 0;
        while i < self.entries.len()
            invariant
                i <= self.entries.len(),
                forall|k: int| 0 <= k < i ==> (#[trigger] self.entries@[k]).0@ != shortcut@,
            decreases self.entries.len() - i,
        {
            if str_eq(self.entries[i].0.as_str(), shortcut) {
                proof {
                    assert(self@[i as int] == (shortcut@, self.entries@[i as int].1@));
                }
                return Some(&self.entries[i].1);
            }
            i = i + 1;
        }
        proof {
            assert forall|k: int| 0 <= k < self@.len() implies (#[trigger] self@[k]).0 != shortcut@ by {
                assert(self@[k].0 == self.entries@[k].0@);
            }
        }
        None
    }

    pub fn contains_key(&self, shortcut: &str) -> (r: bool)
        ensures
            r == exists|i: int| 0 <= i < self@.len() && (#[trigger] self@[i]).0 == shortcut@,
    {
        self.get(shortcut).is_some()
    }

    /// The shortcut texts and their actions, in text order.
    pub fn entries(&self) -> (r: &Vec<(String, Action)>)
        ensures
            r@.map_values(|e: (String, Action)| (e.0@, e.1@)) == self@,
            texts_sorted(self@),
    {
        proof {
            use_type_invariant(self);
            assert forall|i: int, j: int| 0 <= i < j < self@.len() implies text_lt(
                #[trigger] self@[i].0,
                #[trigger] self@[j].0,
            ) by {
                assert(self@[i].0 == self.entries@[i].0@);
                assert(self@[j].0 == self.entries@[j].0@);
            }
        }
        &self.entries
    }
}

// ---------------------------------------------------------------------------
// Compiling
// ---------------------------------------------------------------------------

/// A literal prefix followed by a message.
pub fn prefixed(prefix: &str, e: String) -> (r: String)
    ensures
        r@ == prefix@ + e@,
{
    let mut s = owned(prefix);
    push_str(&mut s, e.as_str());
    s
}

/// Fails when a field holds only whitespace.
pub fn require_nonempty(field: &str, value: &str) -> (r: Result<(), String>)
    ensures
        r is Ok <==> trim(value@).len() > 0,
        r matches Err(e) ==> e@ == empty_field_msg(field@),
{
    let v = chars_of(value);
    let t = trim_chars(v.as_slice());
    if t.len() == 0 {
        let mut s = owned("`");
        push_str(&mut s, field);
        push_str(&mut s, "` cannot be empty");
        Err(s)
    } else {
        Ok(())
    }
}

impl BindingSpec {
    /// The binding's action.
    pub fn compile(self) -> (r: Result<Action, String>)
        ensures
            r matches Ok(a) ==> binding_action_spec(self) == Ok::<ActionView, Seq<char>>(a@),
            r matches Err(e) ==> binding_action_spec(self) == Err::<ActionView, Seq<char>>(e@),
    {
        self.compile_ref()
    }

    /// The binding's action, leaving the binding in place.
    pub fn compile_ref(&self) -> (r: Result<Action, String>)
        ensures
            r matches Ok(a) ==> binding_action_spec(*self) == Ok::<ActionView, Seq<char>>(a@),
            r matches Err(e) ==> binding_action_spec(*self) == Err::<ActionView, Seq<char>>(e@),
    {
        let count: u8 = (if self.app.is_some() { 1u8 } else { 0u8 }) + (if self.url.is_some() { 1u8 } else { 0u8 })
            + (if self.command.is_some() { 1u8 } else { 0u8 }) + (if self.keys.is_some() { 1u8 } else { 0u8 });
        if count != 1 {
            return Err(owned("a binding must define exactly one of `app`, `url`, `command`, or `keys`"));
        }
        if self.behavior.is_some() && self.app.is_none() {
            return Err(owned("`behavior` is only valid with `app`"));
        }
        if let Some(app) = &self.app {
            require_nonempty("app", app.as_str())?;
            let parsed = match &self.behavior {
                Some(b) => AppBehavior::parse(b.as_str()),
                None => AppBehavior::parse("launch"),
            };
            return match parsed {
                Ok(behavior) => Ok(Action::App(AppAction { target: app.clone(), behavior })),
                Err(e) => Err(e),
            };
        }
        if let Some(url) = &self.url {
            require_nonempty("url", url.as_str())?;
            return Ok(Action::OpenUrl(url.clone()));
        }
        if let Some(command) = &self.command {
            require_nonempty("command", command.as_str())?;
            return Ok(Action::RunCommand(command.clone()));
        }
        let keys = self.keys.as_ref().unwrap();
        match Chord::parse(keys.as_str()) {
            Err(e) => Err(prefixed("invalid `keys` action: ", e)),
            Ok(chord) => {
                if chord.has(&Modifier::Hyper) {
                    Err(owned("a `keys` action cannot emit the virtual `hyper` modifier"))
                } else {
                    Ok(Action::SendKeys(chord))
                }
            },
        }
    }
}

/// Parses built-in modifier names in order; the first failure wins.
fn parse_modifier_list(names: &Vec<String>) -> (r: Result<Vec<Modifier>, String>)
    ensures
        r matches Ok(ms) ==> parse_modifiers_spec(string_views(names@), Seq::empty()) == Ok::<
            Seq<ModifierView>,
            Seq<char>,
        >(modifier_views(ms@)),
        r matches Err(e) ==> parse_modifiers_spec(string_views(names@), Seq::empty()) == Err::<
            Seq<ModifierView>,
            Seq<char>,
        >(e@),
{
    let ghost parts = string_views(names@);
    let mut out: Vec<Modifier> = Vec::new();
    let mut i: usize = 0;
    proof {
        assert(parts.take(0) =~= Seq::<Seq<char>>::empty());
        assert(modifier_views(out@) =~= Seq::<ModifierView>::empty());
    }
    while i < names.len()
        invariant
            i <= names.len(),
            parts == string_views(names@),
            parse_modifiers_spec(parts.take(i as int), Seq::empty()) == Ok::<
                Seq<ModifierView>,
                Seq<char>,
            >(modifier_views(out@)),
        decreases names.len() - i,
    {
        proof {
            assert(parts.take(i + 1).drop_last() =~= parts.take(i as int));
            assert(parts.take(i + 1).last() == names@[i as int]@);
        }
        match Modifier::parse(names[i].as_str()) {
            Ok(m) => {
                let ghost before = out@;
                let ghost mv = m@;
                out.push(m);
                proof {
                    assert(modifier_views(out@) =~= modifier_views(before).push(mv));
                }
            },
            Err(e) => {
                proof {
                    lemma_parse_modifiers_prefix_err(parts, i + 1);
                }
                return Err(e);
            },
        }
        i = i + 1;
    }
    proof {
        assert(parts.take(names@.len() as int) =~= parts);
    }
    Ok(out)
}

proof fn lemma_parse_modifiers_prefix_err(parts: Seq<Seq<char>>, k: int)
    requires
        0 <= k <= parts.len(),
        parse_modifiers_spec(parts.take(k), Seq::empty()) is Err,
    ensures
        parse_modifiers_spec(parts, Seq::empty()) == parse_modifiers_spec(parts.take(k), Seq::empty()),
    decreases parts.len() - k,
{
    if k < parts.len() {
        assert(parts.take(k + 1).drop_last() =~= parts.take(k));
        lemma_parse_modifiers_prefix_err(parts, k + 1);
    } else {
        assert(parts.take(k) =~= parts);
    }
}

/// Whether a modifier list holds Hyper.
fn holds_hyper(ms: &Vec<Modifier>) -> (r: bool)
    ensures
        r == modifier_views(ms@).contains((0nat, Seq::<char>::empty())),
{
    let mut i: usize = 0;
    while i < ms.len()
        invariant
            i <= ms.len(),
            forall|k: int| 0 <= k < i ==> (#[trigger] ms@[k])@ != (0nat, Seq::<char>::empty()),
        decreases ms.len() - i,
    {
        if ms[i].rank() == 0 {
            proof {
                assert(modifier_views(ms@)[i as int] == (0nat, Seq::<char>::empty()));
            }
            return true;
        }
        i = i + 1;
    }
    proof {
        if modifier_views(ms@).contains((0nat, Seq::<char>::empty())) {
            let k = choose|k: int| 0 <= k < modifier_views(ms@).len() && modifier_views(ms@)[k] == (0nat, Seq::<char>::empty());
            assert(ms@[k]@ == modifier_views(ms@)[k]);
        }
    }
    false
}

impl HyperSpec {
    pub fn compile(self) -> (r: Result<Hyper, String>)
        ensures
            r matches Ok(h) ==> hyper_spec(self) == Ok::<HyperView, Seq<char>>(h@),
            r matches Err(e) ==> hyper_spec(self) == Err::<HyperView, Seq<char>>(e@),
    {
        let key = match Key::parse(self.key.as_str()) {
            Ok(k) => k,
            Err(e) => return Err(prefixed("invalid hyper key: ", e)),
        };
        let tap = match Chord::parse(self.tap.as_str()) {
            Ok(t) => t,
            Err(e) => return Err(prefixed("invalid hyper tap action: ", e)),
        };
        let modifiers = match parse_modifier_list(&self.modifiers) {
            Ok(ms) => ms,
            Err(e) => return Err(prefixed("invalid hyper modifier: ", e)),
        };
        if holds_hyper(&modifiers) {
            return Err(owned("hyper modifiers cannot contain `hyper`"));
        }
        Ok(Hyper { key, tap, modifiers })
    }
}

fn is_valid_modifier_name(n: &[char]) -> (r: bool)
    ensures
        r == valid_modifier_name(n@),
{
    if n.len() == 0 {
        return false;
    }
    let mut i: usize = 0;
    while i < n.len()
        invariant
            i <= n.len(),
            forall|k: int| 0 <= k < i ==> (is_ascii_alnum(#[trigger] n@[k]) || n@[k] == '_'),
        decreases n.len() - i,
    {
        if !(is_ascii_alnum_exec(n[i]) || n[i] == '_') {
            return false;
        }
        i = i + 1;
    }
    true
}

fn collides_exec(n: &[char]) -> (r: bool)
    ensures
        r == collides(n@),
{
    let builtin = crate::key::builtin_rank_chars(n).is_some();
    let k = normalize_key_chars(n);
    builtin || is_key_chars(k.as_slice())
}

/// The message for a dual-role entry that names `what` wrongly.
fn quoted(prefix: &str, middle: &[char], suffix: &str) -> (r: String)
    ensures
        r@ == prefix@ + middle@ + suffix@,
{
    framed_message(prefix, middle, suffix)
}

/// Compiles the dual-role entries in order.
fn compile_dual_roles(specs: &Vec<DualRoleSpec>, hyper_key: &Key) -> (r: Result<Vec<DualRole>, String>)
    ensures
        r matches Ok(v) ==> dual_roles_spec(specs@, hyper_key@) == Ok::<
            Seq<DualRoleView>,
            Seq<char>,
        >(dual_role_views(v@)),
        r matches Err(e) ==> dual_roles_spec(specs@, hyper_key@) == Err::<
            Seq<DualRoleView>,
            Seq<char>,
        >(e@),
{
    let mut out: Vec<DualRole> = Vec::new();
    let mut i: usize = 0;
    proof {
        assert(specs@.take(0) =~= Seq::<DualRoleSpec>::empty());
        assert(dual_role_views(out@) =~= Seq::<DualRoleView>::empty());
    }
    while i < specs.len()
        invariant
            i <= specs.len(),
            dual_roles_spec(specs@.take(i as int), hyper_key@) == Ok::<
                Seq<DualRoleView>,
                Seq<char>,
            >(dual_role_views(out@)),
        decreases specs.len() - i,
    {
        let ghost prev = dual_role_views(out@);
        proof {
            assert(specs@.take(i + 1).drop_last() =~= specs@.take(i as int));
            assert(specs@.take(i + 1).last() == specs@[i as int]);
        }
        let spec = &specs[i];
        let step = dual_role_entry(&out, spec, hyper_key);
        match step {
            Ok(role) => {
                let ghost rv = role@;
                out.push(role);
                proof {
                    assert(dual_role_views(out@) =~= prev.push(rv));
                }
            },
            Err(e) => {
                proof {
                    lemma_dual_roles_prefix_err(specs@, hyper_key@, i + 1);
                }
                return Err(e);
            },
        }
        i = i + 1;
    }
    proof {
        assert(specs@.take(specs@.len() as int) =~= specs@);
    }
    Ok(out)
}

proof fn lemma_dual_roles_prefix_err(roles: Seq<DualRoleSpec>, hk: Seq<char>, k: int)
    requires
        0 <= k <= roles.len(),
        dual_roles_spec(roles.take(k), hk) is Err,
    ensures
        dual_roles_spec(roles, hk) == dual_roles_spec(roles.take(k), hk),
    decreases roles.len() - k,
{
    if k < roles.len() {
        assert(roles.take(k + 1).drop_last() =~= roles.take(k));
        lemma_dual_roles_prefix_err(roles, hk, k + 1);
    } else {
        assert(roles.take(k) =~= roles);
    }
}


fn has_role_key(prev: &Vec<DualRole>, key: &Key) -> (r: bool)
    ensures
        r == exists|k: int| 0 <= k < prev@.len() && (#[trigger] dual_role_views(prev@)[k]).0 == key@,
{
    let ghost pv = dual_role_views(prev@);
    let mut i: usize = 0;
    while i < prev.len()
        invariant
            i <= prev.len(),
            pv == dual_role_views(prev@),
            forall|k: int| 0 <= k < i ==> (#[trigger] pv[k]).0 != key@,
        decreases prev.len() - i,
    {
        if prev[i].key.same(key) {
            proof {
                assert(pv[i as int].0 == key@);
            }
            return true;
        }
        i = i + 1;
    }
    false
}

fn has_hold_name(prev: &Vec<DualRole>, h: &[char]) -> (r: bool)
    ensures
        r == exists|k: int| 0 <= k < prev@.len() && (#[trigger] dual_role_views(prev@)[k]).2 == h@,
{
    let ghost pv = dual_role_views(prev@);
    let mut i: usize = 0;
    while i < prev.len()
        invariant
            i <= prev.len(),
            pv == dual_role_views(prev@),
            forall|k: int| 0 <= k < i ==> (#[trigger] pv[k]).2 != h@,
        decreases prev.len() - i,
    {
        let existing = chars_of(prev[i].hold_modifier.as_str());
        if crate::text::chars_eq(existing.as_slice(), h) {
            proof {
                assert(pv[i as int].2 == h@);
            }
            return true;
        }
        i = i + 1;
    }
    false
}

/// Checks and compiles one dual-role entry after `prev`.
fn dual_role_entry(prev: &Vec<DualRole>, spec: &DualRoleSpec, hyper_key: &Key) -> (r: Result<
    DualRole,
    String,
>)
    ensures
        r matches Ok(role) ==> dual_role_step(dual_role_views(prev@), *spec, hyper_key@) == Ok::<
            Seq<DualRoleView>,
            Seq<char>,
        >(dual_role_views(prev@).push(role@)),
        r matches Err(e) ==> dual_role_step(dual_role_views(prev@), *spec, hyper_key@) == Err::<
            Seq<DualRoleView>,
            Seq<char>,
        >(e@),
{
    let ghost pv = dual_role_views(prev@);
    let key = match Key::parse(spec.key.as_str()) {
        Ok(k) => k,
        Err(e) => return Err(prefixed("invalid dual-role key: ", e)),
    };
    let tap = match Chord::parse(spec.tap.as_str()) {
        Ok(t) => t,
        Err(e) => return Err(prefixed("invalid dual-role tap: ", e)),
    };
    let raw = chars_of(spec.hold_modifier.as_str());
    let h = normalize_chars(raw.as_slice());
    if !is_valid_modifier_name(h.as_slice()) {
        return Err(quoted("hold modifier `", raw.as_slice(), "` is not a valid modifier name"));
    }
    if crate::key::is_lit(h.as_slice(), "hyper") {
        return Err(owned("hold modifier `hyper` is reserved"));
    }
    if collides_exec(h.as_slice()) {
        return Err(quoted("hold modifier `", h.as_slice(), "` collides with a built-in modifier or key"));
    }
    let kc = chars_of(key.as_str());
    if key.same(hyper_key) {
        return Err(quoted("dual-role key `", kc.as_slice(), "` duplicates the hyper key"));
    }
    if has_role_key(prev, &key) {
        return Err(quoted("duplicate dual-role key `", kc.as_slice(), "`"));
    }
    if has_hold_name(prev, h.as_slice()) {
        return Err(quoted("duplicate hold modifier `", h.as_slice(), "`"));
    }
    let role = DualRole { key, tap, hold_modifier: string_of(h.as_slice()) };
    proof {
        assert(role@ == (key@, tap@, h@));
    }
    Ok(role)
}

/// A table of shortcut texts and actions, as values.
pub open spec fn action_table_view(t: Seq<(String, Action)>) -> Seq<(Seq<char>, ActionView)> {
    t.map_values(|e: (String, Action)| (e.0@, e.1@))
}

/// A table of shortcut texts and cheatsheet rows, as values.
pub open spec fn summary_table_view(t: Seq<(String, BindingSummary)>) -> Seq<
    (Seq<char>, BindingSummaryView),
> {
    t.map_values(|e: (String, BindingSummary)| (e.0@, e.1@))
}

/// The table holds each binding of `list` under its chord text, and nothing else.
pub open spec fn tabulates(
    table: Seq<(Seq<char>, ActionView)>,
    list: Seq<(ChordView, ActionView)>,
) -> bool {
    forall|x: (Seq<char>, ActionView)|
        table.contains(x) <==> exists|k: int|
            0 <= k < list.len() && x == (chord_text((#[trigger] list[k]).0), list[k].1)
}

/// The table holds the cheatsheet row of each Hyper binding of `list`, and nothing else.
pub open spec fn summarizes(
    table: Seq<(Seq<char>, BindingSummaryView)>,
    list: Seq<(ChordView, ActionView)>,
) -> bool {
    forall|x: (Seq<char>, BindingSummaryView)|
        table.contains(x) <==> exists|k: int|
            0 <= k < list.len() && is_hyper_chord((#[trigger] list[k]).0) && x == (
                chord_text(list[k].0),
                summary_spec(list[k].0, list[k].1),
            )
}

fn table_has(table: &Vec<(String, Action)>, text: &str) -> (r: bool)
    ensures
        r == exists|k: int| 0 <= k < table@.len() && (#[trigger] table@[k]).0@ == text@,
{
    let mut i: usize = 0;
    while i < table.len()
        invariant
            i <= table.len(),
            forall|k: int| 0 <= k < i ==> (#[trigger] table@[k]).0@ != text@,
        decreases table.len() - i,
    {
        if str_eq(table[i].0.as_str(), text) {
            return true;
        }
        i = i + 1;
    }
    false
}

proof fn lemma_bindings_prefix_err(entries: Seq<(String, BindingSpec)>, named: Seq<Seq<char>>, k: int)
    requires
        0 <= k <= entries.len(),
        bindings_spec(entries.take(k), named) is Err,
    ensures
        bindings_spec(entries, named) == bindings_spec(entries.take(k), named),
    decreases entries.len() - k,
{
    if k < entries.len() {
        assert(entries.take(k + 1).drop_last() =~= entries.take(k));
        lemma_bindings_prefix_err(entries, named, k + 1);
    } else {
        assert(entries.take(k) =~= entries);
    }
}

/// The compiled bindings: in order, by text, and the cheatsheet rows by text.
pub struct CompiledBindings {
    pub list: Vec<(Chord, Action)>,
    pub table: Vec<(String, Action)>,
    pub summaries: Vec<(String, BindingSummary)>,
}

/// Compiles the bindings in order, with `named` the hold modifiers in scope.
pub fn compile_bindings(entries: &Vec<(String, BindingSpec)>, named: &Vec<String>) -> (r: Result<
    CompiledBindings,
    String,
>)
    ensures
        r matches Ok(c) ==> {
            &&& bindings_spec(entries@, names_of(named@)) == Ok::<
                Seq<(ChordView, ActionView)>,
                Seq<char>,
            >(binding_list_view(c.list@))
            &&& keys_sorted(c.table@)
            &&& tabulates(action_table_view(c.table@), binding_list_view(c.list@))
            &&& keys_sorted(c.summaries@)
            &&& summarizes(summary_table_view(c.summaries@), binding_list_view(c.list@))
            &&& c.summaries@.len() == hyper_count(binding_list_view(c.list@))
        },
        r matches Err(e) ==> bindings_spec(entries@, names_of(named@)) == Err::<
            Seq<(ChordView, ActionView)>,
            Seq<char>,
        >(e@),
{
    let ghost nv = names_of(named@);
    let mut list: Vec<(Chord, Action)> = Vec::new();
    let mut table: Vec<(String, Action)> = Vec::new();
    let mut summaries: Vec<(String, BindingSummary)> = Vec::new();
    let mut i: usize = 0;
    proof {
        assert(entries@.take(0) =~= Seq::<(String, BindingSpec)>::empty());
        assert(binding_list_view(list@) =~= Seq::<(ChordView, ActionView)>::empty());
    }
    while i < entries.len()
        invariant
            i <= entries.len(),
            nv == names_of(named@),
            bindings_spec(entries@.take(i as int), nv) == Ok::<
                Seq<(ChordView, ActionView)>,
                Seq<char>,
            >(binding_list_view(list@)),
            keys_sorted(table@),
            tabulates(action_table_view(table@), binding_list_view(list@)),
            keys_sorted(summaries@),
            summarizes(summary_table_view(summaries@), binding_list_view(list@)),
            summaries@.len() == hyper_count(binding_list_view(list@)),
        decreases entries.len() - i,
    {
        let ghost lv = binding_list_view(list@);
        let ghost tv = action_table_view(table@);
        let ghost sv = summary_table_view(summaries@);
        proof {
            assert(entries@.take(i + 1).drop_last() =~= entries@.take(i as int));
            assert(entries@.take(i + 1).last() == entries@[i as int]);
        }
        let source = &entries[i].0;
        let binding = &entries[i].1;
        if binding.enabled {
            let chord = match Chord::parse_with(source.as_str(), named.as_slice()) {
                Ok(c) => c,
                Err(e) => {
                    let v = chars_of(source.as_str());
                    let msg = framed_message("invalid binding `", v.as_slice(), "`: ");
                    let msg = prefixed(msg.as_str(), e);
                    proof {
                        lemma_bindings_prefix_err(entries@, nv, i + 1);
                    }
                    return Err(msg);
                },
            };
            let normalized = chord.to_string();
            if table_has(&table, normalized.as_str()) {
                proof {
                    let k = choose|k: int| 0 <= k < table@.len() && (#[trigger] table@[k]).0@ == normalized@;
                    assert(tv.contains(tv[k]));
                    let m = choose|m: int| 0 <= m < lv.len() && tv[k] == (chord_text((#[trigger] lv[m]).0), lv[m].1);
                    assert(chord_text(lv[m].0) == chord_text(chord@));
                    lemma_bindings_prefix_err(entries@, nv, i + 1);
                }
                let msg = prefixed("duplicate binding `", normalized);
                let mut msg = msg;
                push_str(&mut msg, "` after normalization");
                return Err(msg);
            }
            proof {
                assert forall|m: int| 0 <= m < lv.len() implies chord_text((#[trigger] lv[m]).0) != chord_text(chord@) by {
                    let x = (chord_text(lv[m].0), lv[m].1);
                    assert(tv.contains(x));
                    let k = choose|k: int| 0 <= k < tv.len() && tv[k] == x;
                    assert(table@[k].0@ == tv[k].0);
                }
            }
            let action = match binding.compile_ref() {
                Ok(a) => a,
                Err(e) => {
                    let v = chars_of(source.as_str());
                    let msg = framed_message("invalid binding `", v.as_slice(), "`: ");
                    let msg = prefixed(msg.as_str(), e);
                    proof {
                        lemma_bindings_prefix_err(entries@, nv, i + 1);
                    }
                    return Err(msg);
                },
            };
            let ghost cv = chord@;
            let ghost av = action@;
            if chord.has(&Modifier::Hyper) {
                let summary = binding_summary(&chord, &action);
                let ghost sum_v = summary@;
                proof {
                    assert forall|k: int| 0 <= k < summaries@.len() implies (#[trigger] summaries@[k]).0@ != normalized@ by {
                        let x = sv[k];
                        assert(sv.contains(x));
                        let m = choose|m: int| 0 <= m < lv.len() && is_hyper_chord((#[trigger] lv[m]).0) && x == (chord_text(lv[m].0), summary_spec(lv[m].0, lv[m].1));
                    }
                }
                let norm_copy = normalized.clone();
                let ghost old_summaries = summaries@;
                let ghost gk = norm_copy;
                let ghost gs = summary;
                sorted_insert(&mut summaries, norm_copy, summary);
                proof {
                    let nl = lv.push((cv, av));
                    assert forall|x: (Seq<char>, BindingSummaryView)|
                        summary_table_view(summaries@).contains(x) <==> exists|k: int|
                            0 <= k < nl.len() && is_hyper_chord((#[trigger] nl[k]).0) && x == (chord_text(nl[k].0), summary_spec(nl[k].0, nl[k].1)) by {
                        let p = choose|p: int| 0 <= p <= sv.len() && summaries@ == old_summaries.insert(p, (gk, gs));
                        if summary_table_view(summaries@).contains(x) {
                            let q = choose|q: int| 0 <= q < summaries@.len() && summary_table_view(summaries@)[q] == x;
                            if q == p {
                                assert(nl[lv.len() as int] == (cv, av));
                            } else {
                                let q2 = if q < p { q } else { q - 1 };
                                assert(sv[q2] == x);
                                assert(sv.contains(x));
                                let m = choose|m: int| 0 <= m < lv.len() && is_hyper_chord((#[trigger] lv[m]).0) && x == (chord_text(lv[m].0), summary_spec(lv[m].0, lv[m].1));
                                assert(nl[m] == lv[m]);
                            }
                        }
                        if exists|k: int| 0 <= k < nl.len() && is_hyper_chord((#[trigger] nl[k]).0) && x == (chord_text(nl[k].0), summary_spec(nl[k].0, nl[k].1)) {
                            let k = choose|k: int| 0 <= k < nl.len() && is_hyper_chord((#[trigger] nl[k]).0) && x == (chord_text(nl[k].0), summary_spec(nl[k].0, nl[k].1));
                            if k == lv.len() {
                                assert(summary_table_view(summaries@)[p] == x);
                            } else {
                                assert(nl[k] == lv[k]);
                                assert(sv.contains(x));
                                let q = choose|q: int| 0 <= q < sv.len() && sv[q] == x;
                                if q < p {
                                    assert(summary_table_view(summaries@)[q] == x);
                                } else {
                                    assert(summary_table_view(summaries@)[q + 1] == x);
                                }
                            }
                        }
                    }
                }
            } else {
                proof {
                    let nl = lv.push((cv, av));
                    assert forall|x: (Seq<char>, BindingSummaryView)|
                        sv.contains(x) <==> exists|k: int|
                            0 <= k < nl.len() && is_hyper_chord((#[trigger] nl[k]).0) && x == (chord_text(nl[k].0), summary_spec(nl[k].0, nl[k].1)) by {
                        if sv.contains(x) {
                            let m = choose|m: int| 0 <= m < lv.len() && is_hyper_chord((#[trigger] lv[m]).0) && x == (chord_text(lv[m].0), summary_spec(lv[m].0, lv[m].1));
                            assert(nl[m] == lv[m]);
                        }
                        if exists|k: int| 0 <= k < nl.len() && is_hyper_chord((#[trigger] nl[k]).0) && x == (chord_text(nl[k].0), summary_spec(nl[k].0, nl[k].1)) {
                            let k = choose|k: int| 0 <= k < nl.len() && is_hyper_chord((#[trigger] nl[k]).0) && x == (chord_text(nl[k].0), summary_spec(nl[k].0, nl[k].1));
                            assert(k != lv.len());
                            assert(nl[k] == lv[k]);
                        }
                    }
                }
            }
            let action_copy = action.clone();
            proof {
                assert forall|k: int| 0 <= k < table@.len() implies (#[trigger] table@[k]).0@ != normalized@ by {
                    let x = tv[k];
                    assert(tv.contains(x));
                    let m = choose|m: int| 0 <= m < lv.len() && x == (chord_text((#[trigger] lv[m]).0), lv[m].1);
                }
            }
            let ghost old_table = table@;
            let ghost gn = normalized;
            let ghost ga = action_copy;
            sorted_insert(&mut table, normalized, action_copy);
            list.push((chord, action));
            proof {
                let nl = binding_list_view(list@);
                assert(nl =~= lv.push((cv, av)));
                assert(nl.drop_last() =~= lv);
                assert forall|x: (Seq<char>, ActionView)|
                    action_table_view(table@).contains(x) <==> exists|k: int|
                        0 <= k < nl.len() && x == (chord_text((#[trigger] nl[k]).0), nl[k].1) by {
                    let p = choose|p: int| 0 <= p <= tv.len() && table@ == old_table.insert(p, (gn, ga));
                    if action_table_view(table@).contains(x) {
                        let q = choose|q: int| 0 <= q < table@.len() && action_table_view(table@)[q] == x;
                        if q == p {
                            assert(nl[lv.len() as int] == (cv, av));
                        } else {
                            let q2 = if q < p { q } else { q - 1 };
                            assert(tv[q2] == x);
                            assert(tv.contains(x));
                            let m = choose|m: int| 0 <= m < lv.len() && x == (chord_text((#[trigger] lv[m]).0), lv[m].1);
                            assert(nl[m] == lv[m]);
                        }
                    }
                    if exists|k: int| 0 <= k < nl.len() && x == (chord_text((#[trigger] nl[k]).0), nl[k].1) {
                        let k = choose|k: int| 0 <= k < nl.len() && x == (chord_text((#[trigger] nl[k]).0), nl[k].1);
                        if k == lv.len() {
                            assert(action_table_view(table@)[p] == x);
                        } else {
                            assert(nl[k] == lv[k]);
                            assert(tv.contains(x));
                            let q = choose|q: int| 0 <= q < tv.len() && tv[q] == x;
                            if q < p {
                                assert(action_table_view(table@)[q] == x);
                            } else {
                                assert(action_table_view(table@)[q + 1] == x);
                            }
                        }
                    }
                }
            }
        }
        i = i + 1;
    }
    proof {
        assert(entries@.take(entries@.len() as int) =~= entries@);
    }
    Ok(CompiledBindings { list, table, summaries })
}

/// A compiled configuration.
#[derive(Debug)]
pub struct CompiledConfig {
    pub hyper: Hyper,
    pub bindings: Bindings,
    pub ui: UiConfig,
    pub dual_roles: Vec<DualRole>,
    /// The enabled bindings in the order they were compiled; matching reads these.
    pub compiled_bindings: Vec<(Chord, Action)>,
    /// The cheatsheet rows under their shortcut texts, in text order.
    pub hyper_binding_summary: Vec<(String, BindingSummary)>,
}

impl CompiledConfig {
    /// The enabled bindings, in the order they were compiled.
    pub open spec fn binding_list(&self) -> Seq<(ChordView, ActionView)> {
        binding_list_view(self.compiled_bindings@)
    }

    /// The cheatsheet rows under their shortcut texts, in text order.
    pub open spec fn summary_table(&self) -> Seq<(Seq<char>, BindingSummaryView)> {
        summary_table_view(self.hyper_binding_summary@)
    }

    /// The cheatsheet rows of the enabled Hyper bindings, ordered by shortcut text.
    pub fn hyper_binding_summary(&self) -> (r: Vec<BindingSummary>)
        ensures
            r@.len() == self.summary_table().len(),
            forall|i: int| 0 <= i < r@.len() ==> (#[trigger] r@[i])@ == self.summary_table()[i].1,
    {
        let mut out: Vec<BindingSummary> = Vec::new();
        let mut i: usize = 0;
        while i < self.hyper_binding_summary.len()
            invariant
                i <= self.hyper_binding_summary.len(),
                out@.len() == i,
                forall|k: int| 0 <= k < i ==> (#[trigger] out@[k])@ == self.summary_table()[k].1,
            decreases self.hyper_binding_summary.len() - i,
        {
            out.push(self.hyper_binding_summary[i].1.clone());
            i = i + 1;
        }
        out
    }

    /// The action of the binding a pressed chord selects.
    pub fn action_for(&self, actual: &Chord) -> (r: Option<&Action>)
        ensures
            r matches Some(a) ==> best_binding(self.binding_list(), actual@) matches Some(i)
                && a@ == self.binding_list()[i].1,
            r is None ==> best_binding(self.binding_list(), actual@) is None,
    {
        match select_binding(&self.compiled_bindings, actual) {
            Some(i) => {
                proof {
                    assert(self.binding_list()[i as int].1 == self.compiled_bindings@[i as int].1@);
                }
                Some(&self.compiled_bindings[i].1)
            },
            None => None,
        }
    }

    /// The feedback policy actions run under.
    pub fn feedback_policy(&self) -> (r: FeedbackPolicy)
        ensures
            r == self.ui.feedback,
    {
        self.ui.feedback
    }
}

/// The names of the dual roles' hold modifiers, in order.
pub open spec fn hold_names_spec(roles: Seq<DualRole>) -> Seq<Seq<char>> {
    roles.map_values(|r: DualRole| r.hold_modifier@)
}

/// The hold modifiers' names.
pub fn hold_names(roles: &Vec<DualRole>) -> (r: Vec<String>)
    ensures
        names_of(r@) == dual_role_views(roles@).map_values(|d: DualRoleView| d.2),
        names_of(r@) == hold_names_spec(roles@),
{
    let mut out: Vec<String> = Vec::new();
    let mut i: usize = 0;
    while i < roles.len()
        invariant
            i <= roles.len(),
            out@.len() == i,
            forall|k: int| 0 <= k < i ==> (#[trigger] out@[k])@ == roles@[k].hold_modifier@,
        decreases roles.len() - i,
    {
        out.push(roles[i].hold_modifier.clone());
        i = i + 1;
    }
    proof {
        assert(names_of(out@) =~= dual_role_views(roles@).map_values(|d: DualRoleView| d.2));
        assert(names_of(out@) =~= hold_names_spec(roles@));
    }
    out
}

impl Config {
    /// Validates and compiles the configuration.
    pub fn compile(self) -> (r: Result<CompiledConfig, String>)
        ensures
            r matches Ok(c) ==> {
                &&& compile_spec(self) == Ok::<
                    (HyperView, Seq<DualRoleView>, Seq<(ChordView, ActionView)>),
                    Seq<char>,
                >((c.hyper@, dual_role_views(c.dual_roles@), c.binding_list()))
                &&& c.ui == self.ui
                &&& texts_sorted(c.bindings@)
                &&& tabulates(c.bindings@, c.binding_list())
                &&& texts_sorted(c.summary_table())
                &&& summarizes(c.summary_table(), c.binding_list())
            },
            r matches Err(e) ==> compile_spec(self) == Err::<
                (HyperView, Seq<DualRoleView>, Seq<(ChordView, ActionView)>),
                Seq<char>,
            >(e@),
    {
        if self.ui.cheatsheet_delay_ms > 5000 {
            return Err(owned("`ui.cheatsheet_delay_ms` must be in 0..=5000"));
        }
        let ghost cfg = self;
        let Config { hyper, bindings, ui, dual_role } = self;
        let hyper = match hyper.compile() {
            Ok(h) => h,
            Err(e) => return Err(e),
        };
        let roles = match compile_dual_roles(&dual_role, &hyper.key) {
            Ok(r) => r,
            Err(e) => return Err(e),
        };
        let named = hold_names(&roles);
        let compiled = match compile_bindings(&bindings, &named) {
            Ok(c) => c,
            Err(e) => return Err(e),
        };
        let CompiledBindings { list, table, summaries } = compiled;
        if ui.cheatsheet && summaries.len() > MAX_BINDING_SUMMARY_ROWS {
            let mut msg = owned("`[ui].cheatsheet` requires at most 64 enabled Hyper bindings; found ");
            push_decimal(&mut msg, summaries.len() as u64);
            return Err(msg);
        }
        let result = CompiledConfig {
            hyper,
            bindings: Bindings { entries: table },
            ui,
            dual_roles: roles,
            compiled_bindings: list,
            hyper_binding_summary: summaries,
        };
        proof {
            assert(result.bindings@ == action_table_view(table@));
            assert forall|i: int, j: int| 0 <= i < j < result.bindings@.len() implies text_lt(
                #[trigger] result.bindings@[i].0,
                #[trigger] result.bindings@[j].0,
            ) by {
                assert(result.bindings@[i].0 == table@[i].0@);
                assert(result.bindings@[j].0 == table@[j].0@);
            }
            assert forall|i: int, j: int| 0 <= i < j < result.summary_table().len() implies text_lt(
                #[trigger] result.summary_table()[i].0,
                #[trigger] result.summary_table()[j].0,
            ) by {
                assert(result.summary_table()[i].0 == summaries@[i].0@);
                assert(result.summary_table()[j].0 == summaries@[j].0@);
            }
        }
        Ok(result)
    }
}


// ---------------------------------------------------------------------------
// Laws
// ---------------------------------------------------------------------------

/// The binding a chord selects matches it, and no matching binding names more side-specific
/// modifiers; when none is selected, none matches.
pub proof fn lemma_best_binding(list: Seq<(ChordView, ActionView)>, actual: ChordView)
    ensures
        best_binding(list, actual) matches Some(i) ==> {
            &&& 0 <= i < list.len()
            &&& chord_matches_spec(list[i].0, actual)
            &&& forall|j: int|
                0 <= j < list.len() && chord_matches_spec(#[trigger] list[j].0, actual) ==> side_count(
                    list[j].0.0,
                ) <= side_count(list[i].0.0)
        },
        best_binding(list, actual) is None ==> forall|j: int|
            0 <= j < list.len() ==> !chord_matches_spec(#[trigger] list[j].0, actual),
    decreases list.len(),
{
    if list.len() > 0 {
        let prev = list.drop_last();
        lemma_best_binding(prev, actual);
        assert forall|j: int| 0 <= j < prev.len() implies prev[j] == list[j] by {}
    }
}

/// Enabled bindings compile to chords with distinct texts: two sources that normalize to
/// the same chord cannot both be configured.
pub proof fn lemma_compiled_chords_distinct(entries: Seq<(String, BindingSpec)>, named: Seq<Seq<char>>)
    ensures
        bindings_spec(entries, named) matches Ok(list) ==> forall|i: int, j: int|
            0 <= i < j < list.len() ==> chord_text(#[trigger] list[i].0) != chord_text(
                #[trigger] list[j].0,
            ),
    decreases entries.len(),
{
    if entries.len() > 0 {
        lemma_compiled_chords_distinct(entries.drop_last(), named);
    }
}

/// A disabled binding is ignored before its chord and action are looked at: adding one
/// changes nothing.
pub proof fn lemma_disabled_binding_ignored(
    entries: Seq<(String, BindingSpec)>,
    source: String,
    b: BindingSpec,
    named: Seq<Seq<char>>,
)
    requires
        !b.enabled,
    ensures
        bindings_spec(entries.push((source, b)), named) == bindings_spec(entries, named),
{
    assert(entries.push((source, b)).drop_last() =~= entries);
}

/// A held modifier that no modifier of a binding meets keeps the binding from matching: a
/// binding names every held modifier (a generic one standing for either side).
pub proof fn lemma_unmet_held_modifier_blocks_match(binding: ChordView, actual: ChordView, j: int)
    requires
        0 <= j < actual.0.len(),
        forall|i: int| 0 <= i < binding.0.len() ==> !modifier_matches(#[trigger] binding.0[i], actual.0[j]),
    ensures
        !chord_matches_spec(binding, actual),
{
    reveal(chord_matches_spec);
    assert(!accounted(actual.0[j], binding.0));
}

/// A modifier of a binding that no held modifier meets keeps the binding from matching.
pub proof fn lemma_unmet_binding_modifier_blocks_match(binding: ChordView, actual: ChordView, i: int)
    requires
        0 <= i < binding.0.len(),
        forall|j: int| 0 <= j < actual.0.len() ==> !modifier_matches(binding.0[i], #[trigger] actual.0[j]),
    ensures
        !chord_matches_spec(binding, actual),
{
    reveal(chord_matches_spec);
    assert(!satisfied(binding.0[i], actual.0));
}

/// A binding matches a pressed chord when the keys agree, each modifier of the binding is
/// met by a held one, and each held modifier by one of the binding's.
pub proof fn lemma_all_met_matches(binding: ChordView, actual: ChordView)
    requires
        binding.1 == actual.1,
        forall|i: int|
            #![trigger binding.0[i]]
            0 <= i < binding.0.len() ==> exists|j: int|
                0 <= j < actual.0.len() && modifier_matches(binding.0[i], #[trigger] actual.0[j]),
        forall|j: int|
            #![trigger actual.0[j]]
            0 <= j < actual.0.len() ==> exists|i: int|
                0 <= i < binding.0.len() && modifier_matches(#[trigger] binding.0[i], actual.0[j]),
    ensures
        chord_matches_spec(binding, actual),
{
    reveal(chord_matches_spec);
    assert forall|i: int| 0 <= i < binding.0.len() implies satisfied(#[trigger] binding.0[i], actual.0) by {
        assert(binding.0[i] == binding.0[i]);
    }
    assert forall|j: int| 0 <= j < actual.0.len() implies accounted(#[trigger] actual.0[j], binding.0) by {
        assert(actual.0[j] == actual.0[j]);
    }
}

/// A matching binding is on the pressed key.
pub proof fn lemma_match_same_key(binding: ChordView, actual: ChordView)
    requires
        chord_matches_spec(binding, actual),
    ensures
        binding.1 == actual.1,
{
    reveal(chord_matches_spec);
}

/// A cheatsheet row leaves out Hyper and nothing else: its chord keeps, in order, each
/// modifier of the binding whose rank is not Hyper's.
pub proof fn lemma_summary_drops_only_hyper(ms: Seq<ModifierView>)
    ensures
        without_hyper(ms) == ms.filter(|m: ModifierView| m.0 != 0),
        forall|m: ModifierView| #[trigger] without_hyper(ms).contains(m) <==> (ms.contains(m) && m.0 != 0),
    decreases ms.len(),
{
    reveal(Seq::filter);
    if ms.len() > 0 {
        let init = ms.drop_last();
        let last = ms.last();
        lemma_summary_drops_only_hyper(init);
        let w = without_hyper(ms);
        let wi = without_hyper(init);
        assert forall|m: ModifierView| #[trigger] w.contains(m) <==> (ms.contains(m) && m.0 != 0) by {
            if ms.contains(m) && m.0 != 0 {
                let i = choose|i: int| 0 <= i < ms.len() && ms[i] == m;
                if i < ms.len() - 1 {
                    assert(init[i] == m);
                    assert(init.contains(m));
                    assert(wi.contains(m));
                    let k = choose|k: int| 0 <= k < wi.len() && wi[k] == m;
                    if last.0 != 0 {
                        assert(w[k] == m);
                    }
                } else {
                    assert(w[w.len() - 1] == m);
                }
            }
            if w.contains(m) {
                let k = choose|k: int| 0 <= k < w.len() && w[k] == m;
                if last.0 != 0 && k == w.len() - 1 {
                    assert(ms[ms.len() - 1] == m);
                } else {
                    assert(wi[k] == m);
                    assert(wi.contains(m));
                    let x = choose|x: int| 0 <= x < init.len() && init[x] == m;
                    assert(ms[x] == m);
                }
            }
        }
    }
}

/// The key of a cheatsheet row is the binding's chord written without Hyper.
pub proof fn lemma_summary_key(c: ChordView, a: ActionView)
    ensures
        summary_spec(c, a).0 == chord_text((c.0.filter(|m: ModifierView| m.0 != 0), c.1)),
{
    lemma_summary_drops_only_hyper(c.0);
}

} // verus!
