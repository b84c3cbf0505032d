//! The keyboard engine: from each key or modifier event and the held state,
//! the next state and what happens to the event.
use vstd::prelude::*;

use crate::config::{
    Action, ActionView, CompiledConfig, DualRoleView, FeedbackPolicy, HyperView, best_binding,
    dual_role_views,
};
use crate::key::{
    Chord, ChordView, Key, Modifier, ModifierView, canonical_modifiers, lemma_canonical_modifiers,
    lemma_sorted_unique, modifier_views, strictly_sorted,
};
use crate::sets::{ActiveRoles, ActiveView, KeySet, ModifierSet, key_set, modifier_set};

verus! {

/// A key or modifier going down or up.
#[derive(Clone, Copy, Debug, PartialEq, Eq, Structural)]
pub enum EventKind {
    Down,
    Up,
}

/// One keyboard event.
#[derive(Debug, PartialEq, Eq)]
pub enum Input {
    Key { key: Key, kind: EventKind, repeat: bool },
    Modifier { modifier: Modifier, kind: EventKind },
}

/// What happens to an event.
#[derive(Debug, PartialEq, Eq)]
pub enum Decision {
    /// The event goes on unchanged.
    Pass,
    /// The event is dropped.
    Suppress,
    /// The event goes on with these modifiers added.
    PassWithModifiers(Vec<Modifier>),
    /// The event is dropped and the action runs.
    Trigger(Action),
}

pub enum InputView {
    Key { key: Seq<char>, kind: EventKind, repeat: bool },
    Modifier { modifier: ModifierView, kind: EventKind },
}

pub enum DecisionView {
    Pass,
    Suppress,
    PassWithModifiers(Seq<ModifierView>),
    Trigger(ActionView),
}

impl View for Input {
    type V = InputView;

    open spec fn view(&self) -> InputView {
        match self {
            Input::Key { key, kind, repeat } => InputView::Key { key: key@, kind: *kind, repeat: *repeat },
            Input::Modifier { modifier, kind } => InputView::Modifier { modifier: modifier@, kind: *kind },
        }
    }
}

impl View for Decision {
    type V = DecisionView;

    open spec fn view(&self) -> DecisionView {
        match self {
            Decision::Pass => DecisionView::Pass,
            Decision::Suppress => DecisionView::Suppress,
            Decision::PassWithModifiers(ms) => DecisionView::PassWithModifiers(modifier_views(ms@)),
            Decision::Trigger(a) => DecisionView::Trigger(a@),
        }
    }
}

impl Clone for Input {
    fn clone(&self) -> (r: Input)
        ensures
            r@ == self@,
    {
        match self {
            Input::Key { key, kind, repeat } => Input::Key { key: key.clone(), kind: *kind, repeat: *repeat },
            Input::Modifier { modifier, kind } => Input::Modifier { modifier: modifier.clone(), kind: *kind },
        }
    }
}

impl Clone for Decision {
    fn clone(&self) -> (r: Decision)
        ensures
            r@ == self@,
    {
        match self {
            Decision::Pass => Decision::Pass,
            Decision::Suppress => Decision::Suppress,
            Decision::PassWithModifiers(ms) => Decision::PassWithModifiers(
                crate::key::clone_modifiers(ms.as_slice()),
            ),
            Decision::Trigger(a) => Decision::Trigger(a.clone()),
        }
    }
}

// ---------------------------------------------------------------------------
// The model
// ---------------------------------------------------------------------------

/// What the engine reads of a configuration: the Hyper key, the dual roles and the
/// enabled bindings in order.
pub type EngineConfig = (HyperView, Seq<DualRoleView>, Seq<(ChordView, ActionView)>);

pub open spec fn config_model(c: CompiledConfig) -> EngineConfig {
    (c.hyper@, dual_role_views(c.dual_roles@), c.binding_list())
}

/// The engine's state.
#[verifier::ext_equal]
pub struct EngineState {
    /// Physical modifiers held down.
    pub held: Set<ModifierView>,
    /// The Hyper key is down.
    pub hyper_active: bool,
    /// Another input arrived while the Hyper key was down.
    pub hyper_used: bool,
    /// Dual-role keys held down: whether another input arrived meanwhile, and the
    /// modifiers held when each went down.
    pub active: ActiveView,
    /// Dual-role keys released since the configuration was set.
    pub released: Set<Seq<char>>,
    /// Keys whose press triggered an action, until they are released.
    pub consumed: Set<Seq<char>>,
    /// Keys passed on with Hyper's modifiers, until they are released.
    pub rewritten: Set<Seq<char>>,
}

/// The state of a fresh engine.
pub open spec fn initial_state() -> EngineState {
    EngineState {
        held: Set::empty(),
        hyper_active: false,
        hyper_used: false,
        active: Map::empty(),
        released: Set::empty(),
        consumed: Set::empty(),
        rewritten: Set::empty(),
    }
}

/// Nothing is held: no modifier, no Hyper, no dual-role key, no consumed or rewritten key.
pub open spec fn idle(s: EngineState) -> bool {
    &&& s.held == Set::<ModifierView>::empty()
    &&& !s.hyper_active
    &&& s.active.dom() == Set::<Seq<char>>::empty()
    &&& s.consumed == Set::<Seq<char>>::empty()
    &&& s.rewritten == Set::<Seq<char>>::empty()
}

/// Every held dual-role key becomes used.
pub open spec fn mark_used(s: EngineState) -> EngineState {
    EngineState {
        active: Map::new(|k: Seq<char>| s.active.dom().contains(k), |k: Seq<char>| (true, s.active[k].1)),
        ..s
    }
}

/// Another input arrived: Hyper, if down, and every held dual-role key become used.
pub open spec fn note_other_input(s: EngineState) -> EngineState {
    mark_used(EngineState { hyper_used: s.hyper_active || s.hyper_used, ..s })
}

/// The first dual role on a key.
pub open spec fn role_index(roles: Seq<DualRoleView>, key: Seq<char>) -> Option<int>
    decreases roles.len(),
{
    if roles.len() == 0 {
        None
    } else {
        match role_index(roles.drop_last(), key) {
            Some(i) => Some(i),
            None => if roles.last().0 == key {
                Some(roles.len() - 1)
            } else {
                None
            },
        }
    }
}

/// `m` is the named modifier of the first dual role on key `k`.
pub open spec fn named_from(roles: Seq<DualRoleView>, k: Seq<char>, m: ModifierView) -> bool {
    match role_index(roles, k) {
        Some(x) => m == (14nat, roles[x].2),
        None => false,
    }
}

/// The modifiers a key press is combined with: the held ones, Hyper while it is down,
/// and the named modifier of each held dual-role key.
pub open spec fn chord_modifier_set(roles: Seq<DualRoleView>, s: EngineState) -> Set<ModifierView> {
    Set::new(
        |m: ModifierView|
            s.held.contains(m) || (s.hyper_active && m == (0nat, Seq::<char>::empty())) || exists|
                k: Seq<char>,
            |
                #![trigger s.active.dom().contains(k)]
                s.active.dom().contains(k) && named_from(roles, k, m),
    )
}

/// The modifiers of a set in canonical order.
pub open spec fn sorted_of(set: Set<ModifierView>) -> Seq<ModifierView> {
    choose|q: Seq<ModifierView>|
        strictly_sorted(q) && forall|y: ModifierView| q.contains(y) <==> set.contains(y)
}

/// The chord a key press forms in a state.
pub open spec fn current_chord(roles: Seq<DualRoleView>, s: EngineState, key: Seq<char>) -> ChordView {
    (sorted_of(chord_modifier_set(roles, s)), key)
}

/// A modifier going down or up.
pub open spec fn modifier_step(s: EngineState, m: ModifierView, kind: EventKind) -> (
    EngineState,
    DecisionView,
) {
    match kind {
        EventKind::Down => (
            note_other_input(EngineState { held: s.held.insert(m), ..s }),
            DecisionView::Pass,
        ),
        EventKind::Up => (EngineState { held: s.held.remove(m), ..s }, DecisionView::Pass),
    }
}

/// The Hyper key going down or up.
pub open spec fn hyper_key_step(cfg: EngineConfig, s: EngineState, kind: EventKind, repeat: bool) -> (
    EngineState,
    DecisionView,
) {
    match kind {
        EventKind::Down => if repeat || s.hyper_active {
            (s, DecisionView::Suppress)
        } else {
            (
                mark_used(EngineState { hyper_active: true, hyper_used: false, ..s }),
                DecisionView::Suppress,
            )
        },
        EventKind::Up => if !s.hyper_active {
            (s, DecisionView::Suppress)
        } else if s.hyper_used {
            (EngineState { hyper_active: false, ..s }, DecisionView::Suppress)
        } else {
            (
                EngineState { hyper_active: false, ..s },
                DecisionView::Trigger(ActionView::SendKeys(cfg.0.1)),
            )
        },
    }
}

/// A dual-role key going down or up; released alone, it taps `tap` with the modifiers
/// that were held when it went down.
pub open spec fn dual_role_key_step(
    s: EngineState,
    key: Seq<char>,
    tap: ChordView,
    kind: EventKind,
    repeat: bool,
) -> (EngineState, DecisionView) {
    match kind {
        EventKind::Down => if repeat || s.active.dom().contains(key) {
            (s, DecisionView::Suppress)
        } else {
            let s1 = note_other_input(s);
            (
                EngineState {
                    released: s1.released.remove(key),
                    active: s1.active.insert(key, (false, s1.held)),
                    ..s1
                },
                DecisionView::Suppress,
            )
        },
        EventKind::Up => if !s.active.dom().contains(key) {
            (s, if s.released.contains(key) { DecisionView::Suppress } else { DecisionView::Pass })
        } else {
            let entry = s.active[key];
            let s1 = EngineState {
                active: s.active.remove(key),
                released: s.released.insert(key),
                ..s
            };
            if entry.0 {
                (s1, DecisionView::Suppress)
            } else {
                (
                    s1,
                    DecisionView::Trigger(
                        ActionView::SendKeys((sorted_of(tap.0.to_set().union(entry.1)), tap.1)),
                    ),
                )
            }
        },
    }
}

/// Any other key going down or up.
pub open spec fn plain_key_step(
    cfg: EngineConfig,
    s: EngineState,
    key: Seq<char>,
    kind: EventKind,
    repeat: bool,
) -> (EngineState, DecisionView) {
    if kind == EventKind::Up && s.consumed.contains(key) {
        (EngineState { consumed: s.consumed.remove(key), ..s }, DecisionView::Suppress)
    } else if kind == EventKind::Up && s.rewritten.contains(key) {
        (
            EngineState { rewritten: s.rewritten.remove(key), ..s },
            DecisionView::PassWithModifiers(cfg.0.2),
        )
    } else if repeat && s.consumed.contains(key) {
        (s, DecisionView::Suppress)
    } else if kind == EventKind::Down {
        let s1 = note_other_input(s);
        let chord = current_chord(cfg.1, s1, key);
        match best_binding(cfg.2, chord) {
            Some(i) => (
                EngineState { consumed: s1.consumed.insert(key), ..s1 },
                DecisionView::Trigger(cfg.2[i].1),
            ),
            None => if s1.hyper_active {
                (
                    EngineState { rewritten: s1.rewritten.insert(key), ..s1 },
                    DecisionView::PassWithModifiers(cfg.0.2),
                )
            } else {
                (s1, DecisionView::Pass)
            },
        }
    } else {
        (s, DecisionView::Pass)
    }
}

/// A key going down or up.
pub open spec fn key_step(cfg: EngineConfig, s: EngineState, key: Seq<char>, kind: EventKind, repeat: bool) -> (
    EngineState,
    DecisionView,
) {
    if key == cfg.0.0 {
        hyper_key_step(cfg, s, kind, repeat)
    } else {
        match role_index(cfg.1, key) {
            Some(i) => dual_role_key_step(s, cfg.1[i].0, cfg.1[i].1, kind, repeat),
            None => plain_key_step(cfg, s, key, kind, repeat),
        }
    }
}

/// One event: the next state and the decision.
pub open spec fn engine_step(cfg: EngineConfig, s: EngineState, input: InputView) -> (
    EngineState,
    DecisionView,
) {
    match input {
        InputView::Modifier { modifier, kind } => modifier_step(s, modifier, kind),
        InputView::Key { key, kind, repeat } => key_step(cfg, s, key, kind, repeat),
    }
}

/// The chord a key-down event would be looked up under, for events that form one.
pub open spec fn preview_spec(cfg: EngineConfig, s: EngineState, input: InputView) -> Option<ChordView> {
    match input {
        InputView::Key { key, kind, repeat } => if kind != EventKind::Down || repeat || key
            == cfg.0.0 || role_index(cfg.1, key) is Some {
            None
        } else {
            Some(current_chord(cfg.1, s, key))
        },
        InputView::Modifier { .. } => None,
    }
}

// ---------------------------------------------------------------------------
// The engine
// ---------------------------------------------------------------------------

/// The keyboard engine.
pub struct Engine {
    config: CompiledConfig,
    held_modifiers: ModifierSet,
    hyper_active: bool,
    hyper_used: bool,
    active_dual_roles: ActiveRoles,
    released_dual_roles: KeySet,
    consumed_keys: KeySet,
    rewritten_keys: KeySet,
}

impl Engine {
    /// The configuration the engine runs.
    pub closed spec fn config_spec(&self) -> CompiledConfig {
        self.config
    }

    /// The engine's state.
    pub closed spec fn state(&self) -> EngineState {
        EngineState {
            held: self.held_modifiers@,
            hyper_active: self.hyper_active,
            hyper_used: self.hyper_used,
            active: self.active_dual_roles@,
            released: self.released_dual_roles@,
            consumed: self.consumed_keys@,
            rewritten: self.rewritten_keys@,
        }
    }

    pub open spec fn model(&self) -> EngineConfig {
        config_model(self.config_spec())
    }

    pub fn new(config: CompiledConfig) -> (r: Engine)
        ensures
            r.config_spec() == config,
            r.state() == initial_state(),
    {
        let r = Engine {
            config,
            held_modifiers: ModifierSet::new(),
            hyper_active: false,
            hyper_used: false,
            active_dual_roles: ActiveRoles::new(),
            released_dual_roles: KeySet::new(),
            consumed_keys: KeySet::new(),
            rewritten_keys: KeySet::new(),
        };
        r
    }

    /// Nothing is held.
    pub fn is_idle(&self) -> (r: bool)
        ensures
            r == idle(self.state()),
    {
        self.held_modifiers.is_empty() && !self.hyper_active && self.active_dual_roles.is_empty()
            && self.consumed_keys.is_empty() && self.rewritten_keys.is_empty()
    }

    pub fn hyper_key(&self) -> (r: &Key)
        ensures
            r@ == self.model().0.0,
    {
        &self.config.hyper.key
    }

    pub fn feedback_policy(&self) -> (r: FeedbackPolicy)
        ensures
            r == self.config_spec().ui.feedback,
    {
        self.config.ui.feedback
    }

    /// Runs another configuration from the next event on; the held state stays, and
    /// released dual-role keys are forgotten.
    pub fn replace_config(&mut self, config: CompiledConfig)
        ensures
            final(self).config_spec() == config,
            final(self).state() == (EngineState { released: Set::empty(), ..old(self).state() }),
    {
        self.config = config;
        self.released_dual_roles.clear();
    }

    fn mark_dual_roles_used(&mut self)
        ensures
            final(self).state() == mark_used(old(self).state()),
            final(self).config_spec() == old(self).config_spec(),
    {
        self.active_dual_roles.mark_all_used();
        proof {
            assert(self.state().active =~= mark_used(old(self).state()).active);
        }
    }

    fn note_other_input(&mut self)
        ensures
            final(self).state() == note_other_input(old(self).state()),
            final(self).config_spec() == old(self).config_spec(),
    {
        if self.hyper_active {
            self.hyper_used = true;
        }
        self.mark_dual_roles_used();
    }

    /// The first dual role on a key.
    fn find_role(&self, key: &Key) -> (r: Option<usize>)
        ensures
            r matches Some(i) ==> role_index(self.model().1, key@) == Some(i as int) && i
                < self.config.dual_roles@.len(),
            r is None ==> role_index(self.model().1, key@) is None,
    {
        let ghost roles = self.model().1;
        let mut i: usize = 0;
        while i < self.config.dual_roles.len()
            invariant
                i <= self.config.dual_roles.len(),
                roles == dual_role_views(self.config.dual_roles@),
                role_index(roles.take(i as int), key@) is None,
            decreases self.config.dual_roles.len() - i,
        {
            proof {
                assert(roles.take(i + 1).drop_last() =~= roles.take(i as int));
                assert(roles.take(i + 1).last() == roles[i as int]);
            }
            if self.config.dual_roles[i].key.same(key) {
                proof {
                    lemma_role_index_prefix(roles, key@, i + 1);
                }
                return Some(i);
            }
            i = i + 1;
        }
        proof {
            assert(roles.take(roles.len() as int) =~= roles);
        }
        None
    }

    /// The chord a key forms with what is held now.
    fn current_chord(&self, key: &Key) -> (r: Chord)
        ensures
            r@ == current_chord(self.model().1, self.state(), key@),
    {
        let ghost roles = self.model().1;
        let ghost want = chord_modifier_set(roles, self.state());
        let mut modifiers = self.held_modifiers.to_vec();
        let ghost held_only = modifiers@;
        if self.hyper_active {
            modifiers.push(Modifier::Hyper);
            proof {
                lemma_modifier_set_push(held_only, Modifier::Hyper);
            }
        }
        let active = self.active_dual_roles.keys();
        let ghost base = modifiers@;
        let mut i: usize = 0;
        proof {
            assert(named_prefix(roles, active@, 0) =~= Set::<ModifierView>::empty());
            assert(modifier_set(modifiers@) =~= modifier_set(base).union(named_prefix(roles, active@, 0)));
        }
        while i < active.len()
            invariant
                i <= active.len(),
                roles == self.model().1,
                modifier_set(modifiers@) == modifier_set(base).union(named_prefix(roles, active@, i as int)),
            decreases active.len() - i,
        {
            let found = self.find_role(&active[i]);
            let ghost before = modifiers@;
            proof {
                lemma_named_prefix_step(roles, active@, i as int);
            }
            if let Some(x) = found {
                let name = self.config.dual_roles[x].hold_modifier.clone();
                let m = Modifier::Named(name);
                proof {
                    assert(roles[x as int].2 == self.config.dual_roles@[x as int].hold_modifier@);
                    lemma_modifier_set_push(before, m);
                    assert(m@ == (14nat, roles[x as int].2));
                }
                modifiers.push(m);
                proof {
                    assert(modifier_set(modifiers@) =~= modifier_set(base).union(named_prefix(roles, active@, i + 1)));
                }
            } else {
                proof {
                    assert(modifier_set(modifiers@) =~= modifier_set(base).union(named_prefix(roles, active@, i + 1)));
                }
            }
            i = i + 1;
        }
        let chord = Chord::new(modifiers, key.clone());
        proof {
            let views = modifier_views(modifiers@);
            lemma_canonical_modifiers(views);
            let st = self.state();
            assert forall|k: Seq<char>| #![trigger st.active.dom().contains(k)] st.active.dom().contains(k) <==> key_set(active@).contains(k) by {}
            assert forall|m: ModifierView| named_prefix(roles, active@, active@.len() as int).contains(m) <==> (exists|k: Seq<char>| #![trigger st.active.dom().contains(k)] st.active.dom().contains(k) && named_from(roles, k, m)) by {
                if named_prefix(roles, active@, active@.len() as int).contains(m) {
                    let j = choose|j: int| 0 <= j < active@.len() && named_from(roles, (#[trigger] active@[j])@, m);
                    assert(key_set(active@).contains(active@[j]@));
                    assert(st.active.dom().contains(active@[j]@));
                }
                if exists|k: Seq<char>| #![trigger st.active.dom().contains(k)] st.active.dom().contains(k) && named_from(roles, k, m) {
                    let k = choose|k: Seq<char>| #![trigger st.active.dom().contains(k)] st.active.dom().contains(k) && named_from(roles, k, m);
                    assert(key_set(active@).contains(k));
                    let j = choose|j: int| 0 <= j < active@.len() && (#[trigger] active@[j])@ == k;
                    assert(named_from(roles, active@[j]@, m));
                }
            }
            assert forall|m: ModifierView| modifier_set(base).contains(m) <==> (st.held.contains(m) || (st.hyper_active && m == (0nat, Seq::<char>::empty()))) by {
                if !self.hyper_active {
                    assert(base == held_only);
                }
            }
            assert forall|m: ModifierView| views.contains(m) <==> want.contains(m) by {
                assert(modifier_set(modifiers@).contains(m) <==> views.contains(m)) by {
                    if views.contains(m) {
                        let k = choose|k: int| 0 <= k < views.len() && views[k] == m;
                        assert(modifiers@[k]@ == m);
                    }
                    if modifier_set(modifiers@).contains(m) {
                        let k = choose|k: int| 0 <= k < modifiers@.len() && (#[trigger] modifiers@[k])@ == m;
                        assert(views[k] == m);
                    }
                }
            }
            let q = sorted_of(want);
            lemma_sorted_unique(chord@.0, q);
        }
        chord
    }
}

/// The named modifiers of the first `n` held dual-role keys.
pub open spec fn named_prefix(roles: Seq<DualRoleView>, keys: Seq<Key>, n: int) -> Set<ModifierView> {
    Set::new(|m: ModifierView| exists|j: int| 0 <= j < n && named_from(roles, (#[trigger] keys[j])@, m))
}

proof fn lemma_named_prefix_step(roles: Seq<DualRoleView>, keys: Seq<Key>, i: int)
    requires
        0 <= i < keys.len(),
    ensures
        named_prefix(roles, keys, i + 1) == match role_index(roles, keys[i]@) {
            Some(x) => named_prefix(roles, keys, i).insert((14nat, roles[x].2)),
            None => named_prefix(roles, keys, i),
        },
{
    let next = named_prefix(roles, keys, i + 1);
    let prev = named_prefix(roles, keys, i);
    match role_index(roles, keys[i]@) {
        Some(x) => {
            assert forall|m: ModifierView| next.contains(m) <==> prev.insert((14nat, roles[x].2)).contains(m) by {
                if next.contains(m) {
                    let j = choose|j: int| 0 <= j < i + 1 && named_from(roles, (#[trigger] keys[j])@, m);
                    if j < i {
                        assert(prev.contains(m));
                    }
                }
                if prev.contains(m) {
                    let j = choose|j: int| 0 <= j < i && named_from(roles, (#[trigger] keys[j])@, m);
                    assert(next.contains(m));
                }
                if m == (14nat, roles[x].2) {
                    assert(named_from(roles, keys[i]@, m));
                    assert(next.contains(m));
                }
            }
            assert(next =~= prev.insert((14nat, roles[x].2)));
        },
        None => {
            assert forall|m: ModifierView| next.contains(m) <==> prev.contains(m) by {
                if next.contains(m) {
                    let j = choose|j: int| 0 <= j < i + 1 && named_from(roles, (#[trigger] keys[j])@, m);
                    if j < i {
                        assert(prev.contains(m));
                    } else {
                        assert(!named_from(roles, keys[i]@, m));
                    }
                }
                if prev.contains(m) {
                    let j = choose|j: int| 0 <= j < i && named_from(roles, (#[trigger] keys[j])@, m);
                    assert(next.contains(m));
                }
            }
            assert(next =~= prev);
        },
    }
}

proof fn lemma_modifier_set_push(v: Seq<Modifier>, m: Modifier)
    ensures
        modifier_set(v.push(m)) == modifier_set(v).insert(m@),
{
    let w = v.push(m);
    assert forall|x: ModifierView| modifier_set(w).contains(x) <==> modifier_set(v).insert(m@).contains(x) by {
        if modifier_set(w).contains(x) {
            let k = choose|k: int| 0 <= k < w.len() && (#[trigger] w[k])@ == x;
            if k < v.len() {
                assert(w[k] == v[k]);
            }
        }
        if modifier_set(v).contains(x) {
            let k = choose|k: int| 0 <= k < v.len() && (#[trigger] v[k])@ == x;
            assert(w[k] == v[k]);
        }
        if x == m@ {
            assert(w[v.len() as int] == m);
        }
    }
    assert(modifier_set(w) =~= modifier_set(v).insert(m@));
}

impl Engine {
    /// Handles one event: updates the held state and decides what happens to the event.
    pub fn handle(&mut self, input: Input) -> (r: Decision)
        ensures
            final(self).config_spec() == old(self).config_spec(),
            final(self).state() == engine_step(old(self).model(), old(self).state(), input@).0,
            r@ == engine_step(old(self).model(), old(self).state(), input@).1,
    {
        match input {
            Input::Modifier { modifier, kind } => {
                match kind {
                    EventKind::Down => {
                        self.held_modifiers.insert(modifier);
                        self.note_other_input();
                    },
                    EventKind::Up => {
                        self.held_modifiers.remove(&modifier);
                    },
                }
                proof {
                    assert(self.state() =~= engine_step(old(self).model(), old(self).state(), input@).0);
                }
                Decision::Pass
            },
            Input::Key { key, kind, repeat } => self.handle_key(key, kind, repeat),
        }
    }

    fn handle_key(&mut self, key: Key, kind: EventKind, repeat: bool) -> (r: Decision)
        ensures
            final(self).config_spec() == old(self).config_spec(),
            final(self).state() == key_step(old(self).model(), old(self).state(), key@, kind, repeat).0,
            r@ == key_step(old(self).model(), old(self).state(), key@, kind, repeat).1,
    {
        if key.same(&self.config.hyper.key) {
            return self.handle_hyper_key(kind, repeat);
        }
        match self.find_role(&key) {
            Some(i) => {
                let role_key = self.config.dual_roles[i].key.clone();
                let tap = self.config.dual_roles[i].tap.clone();
                proof {
                    assert(self.model().1[i as int] == self.config.dual_roles@[i as int]@);
                }
                self.handle_dual_role_key(role_key, tap, kind, repeat)
            },
            None => self.handle_plain_key(key, kind, repeat),
        }
    }

    fn handle_hyper_key(&mut self, kind: EventKind, repeat: bool) -> (r: Decision)
        ensures
            final(self).config_spec() == old(self).config_spec(),
            final(self).state() == hyper_key_step(old(self).model(), old(self).state(), kind, repeat).0,
            r@ == hyper_key_step(old(self).model(), old(self).state(), kind, repeat).1,
    {
        match kind {
            EventKind::Down => {
                if repeat || self.hyper_active {
                    return Decision::Suppress;
                }
                self.hyper_active = true;
                self.hyper_used = false;
                self.mark_dual_roles_used();
                proof {
                    assert(self.state() =~= hyper_key_step(old(self).model(), old(self).state(), kind, repeat).0);
                }
                Decision::Suppress
            },
            EventKind::Up => {
                if !self.hyper_active {
                    return Decision::Suppress;
                }
                self.hyper_active = false;
                proof {
                    assert(self.state() =~= hyper_key_step(old(self).model(), old(self).state(), kind, repeat).0);
                }
                if self.hyper_used {
                    Decision::Suppress
                } else {
                    Decision::Trigger(Action::SendKeys(self.config.hyper.tap.clone()))
                }
            },
        }
    }

    fn handle_dual_role_key(&mut self, key: Key, tap: Chord, kind: EventKind, repeat: bool) -> (r: Decision)
        ensures
            final(self).config_spec() == old(self).config_spec(),
            final(self).state() == dual_role_key_step(old(self).state(), key@, tap@, kind, repeat).0,
            r@ == dual_role_key_step(old(self).state(), key@, tap@, kind, repeat).1,
    {
        match kind {
            EventKind::Down => {
                if repeat || self.active_dual_roles.contains_key(&key) {
                    return Decision::Suppress;
                }
                self.note_other_input();
                self.released_dual_roles.remove(&key);
                let taps = self.held_modifiers.duplicate();
                self.active_dual_roles.insert(key, taps);
                proof {
                    assert(self.state() =~= dual_role_key_step(old(self).state(), key@, tap@, kind, repeat).0);
                }
                Decision::Suppress
            },
            EventKind::Up => {
                match self.active_dual_roles.remove(&key) {
                    None => {
                        proof {
                            assert(self.state() =~= old(self).state());
                        }
                        if self.released_dual_roles.contains(&key) {
                            Decision::Suppress
                        } else {
                            Decision::Pass
                        }
                    },
                    Some((used, taps)) => {
                        let ghost kv = key@;
                        self.released_dual_roles.insert(key);
                        proof {
                            assert(self.state() =~= dual_role_key_step(old(self).state(), kv, tap@, kind, repeat).0);
                        }
                        if used {
                            Decision::Suppress
                        } else {
                            let mut modifiers = crate::key::clone_modifiers(tap.modifiers.as_slice());
                            let extra = taps.to_vec();
                            let ghost first = modifiers@;
                            let mut j: usize = 0;
                            while j < extra.len()
                                invariant
                                    j <= extra.len(),
                                    modifiers@.len() == first.len() + j,
                                    forall|k: int| 0 <= k < first.len() ==> (#[trigger] modifiers@[k]) == first[k],
                                    forall|k: int| 0 <= k < j ==> (#[trigger] modifiers@[first.len() + k])@ == extra@[k]@,
                                decreases extra.len() - j,
                            {
                                modifiers.push(extra[j].clone());
                                j = j + 1;
                            }
                            let ghost all = modifiers@;
                            let chord = Chord::new(modifiers, tap.key.clone());
                            proof {
                                let views = modifier_views(all);
                                let want = tap@.0.to_set().union(taps@);
                                lemma_canonical_modifiers(views);
                                assert forall|m: ModifierView| views.contains(m) <==> want.contains(m) by {
                                    if views.contains(m) {
                                        let k = choose|k: int| 0 <= k < views.len() && views[k] == m;
                                        if k < first.len() {
                                            assert(all[k] == first[k]);
                                            assert(first[k]@ == m);
                                            assert(modifier_views(first)[k] == tap@.0[k]);
                                            assert(tap@.0.contains(m));
                                        } else {
                                            assert(all[first.len() + (k - first.len())]@ == extra@[k - first.len()]@);
                                            assert(extra@[k - first.len()]@ == m);
                                            assert(modifier_set(extra@).contains(m));
                                        }
                                    }
                                    if tap@.0.contains(m) {
                                        let k = choose|k: int| 0 <= k < tap@.0.len() && tap@.0[k] == m;
                                        assert(modifier_views(first)[k] == tap@.0[k]);
                                        assert(all[k] == first[k]);
                                        assert(views[k] == m);
                                    }
                                    if taps@.contains(m) {
                                        assert(modifier_set(extra@).contains(m));
                                        let k = choose|k: int| 0 <= k < extra@.len() && (#[trigger] extra@[k])@ == m;
                                        assert(all[first.len() + k]@ == extra@[k]@);
                                        assert(views[first.len() + k] == m);
                                    }
                                }
                                lemma_sorted_unique(chord@.0, sorted_of(want));
                            }
                            Decision::Trigger(Action::SendKeys(chord))
                        }
                    },
                }
            },
        }
    }

    fn handle_plain_key(&mut self, key: Key, kind: EventKind, repeat: bool) -> (r: Decision)
        ensures
            final(self).config_spec() == old(self).config_spec(),
            final(self).state() == plain_key_step(old(self).model(), old(self).state(), key@, kind, repeat).0,
            r@ == plain_key_step(old(self).model(), old(self).state(), key@, kind, repeat).1,
    {
        if kind == EventKind::Up {
            let was_consumed = self.consumed_keys.remove(&key);
            if was_consumed {
                proof {
                    assert(self.state() =~= plain_key_step(old(self).model(), old(self).state(), key@, kind, repeat).0);
                }
                return Decision::Suppress;
            }
            let was_rewritten = self.rewritten_keys.remove(&key);
            if was_rewritten {
                proof {
                    assert(self.state() =~= plain_key_step(old(self).model(), old(self).state(), key@, kind, repeat).0);
                }
                return Decision::PassWithModifiers(crate::key::clone_modifiers(self.config.hyper.modifiers.as_slice()));
            }
        }
        proof {
            assert(self.state().consumed =~= old(self).state().consumed);
            assert(self.state().rewritten =~= old(self).state().rewritten);
            assert(self.state() =~= old(self).state());
        }
        if repeat && self.consumed_keys.contains(&key) {
            return Decision::Suppress;
        }
        if kind == EventKind::Down {
            self.note_other_input();
            let chord = self.current_chord(&key);
            let found = match self.config.action_for(&chord) {
                Some(a) => Some(a.clone()),
                None => None,
            };
            match found {
                Some(action) => {
                    self.consumed_keys.insert(key);
                    proof {
                        assert(self.state() =~= plain_key_step(old(self).model(), old(self).state(), key@, kind, repeat).0);
                    }
                    Decision::Trigger(action)
                },
                None => {
                    if self.hyper_active {
                        let ghost kv = key@;
                        self.rewritten_keys.insert(key);
                        proof {
                            assert(self.state() =~= plain_key_step(old(self).model(), old(self).state(), kv, kind, repeat).0);
                        }
                        Decision::PassWithModifiers(crate::key::clone_modifiers(self.config.hyper.modifiers.as_slice()))
                    } else {
                        Decision::Pass
                    }
                },
            }
        } else {
            Decision::Pass
        }
    }

    /// The chord a key-down event would be looked up under, without handling it.
    pub fn preview_chord(&self, input: &Input) -> (r: Option<Chord>)
        ensures
            r matches Some(c) ==> preview_spec(self.model(), self.state(), input@) == Some(c@),
            r is None ==> preview_spec(self.model(), self.state(), input@) is None,
    {
        match input {
            Input::Key { key, kind, repeat } => {
                if *kind != EventKind::Down || *repeat || key.same(&self.config.hyper.key)
                    || self.find_role(key).is_some() {
                    None
                } else {
                    Some(self.current_chord(key))
                }
            },
            Input::Modifier { .. } => None,
        }
    }
}

/// Finding a dual role in a prefix finds the same one in the whole list.
proof fn lemma_role_index_prefix(roles: Seq<DualRoleView>, key: Seq<char>, k: int)
    requires
        0 <= k <= roles.len(),
        role_index(roles.take(k), key) is Some,
    ensures
        role_index(roles, key) == role_index(roles.take(k), key),
    decreases roles.len() - k,
{
    if k < roles.len() {
        assert(roles.take(k + 1).drop_last() =~= roles.take(k));
        lemma_role_index_prefix(roles, key, k + 1);
    } else {
        assert(roles.take(k) =~= roles);
    }
}


// ---------------------------------------------------------------------------
// Laws
// ---------------------------------------------------------------------------

/// A key event as a value.
pub open spec fn key_event(key: Seq<char>, kind: EventKind, repeat: bool) -> InputView {
    InputView::Key { key, kind, repeat }
}

/// The dual role found for a key is a role on that key.
pub proof fn lemma_role_index_key(roles: Seq<DualRoleView>, key: Seq<char>)
    ensures
        role_index(roles, key) matches Some(i) ==> 0 <= i < roles.len() && roles[i].0 == key,
    decreases roles.len(),
{
    if roles.len() > 0 {
        lemma_role_index_key(roles.drop_last(), key);
    }
}

/// Noting another input changes no chord.
pub proof fn lemma_note_keeps_chord(roles: Seq<DualRoleView>, s: EngineState, key: Seq<char>)
    ensures
        current_chord(roles, note_other_input(s), key) == current_chord(roles, s, key),
{
    let t = note_other_input(s);
    assert(t.active.dom() =~= s.active.dom());
    assert(chord_modifier_set(roles, t) =~= chord_modifier_set(roles, s));
}

/// A fresh engine is idle.
pub proof fn lemma_initial_state_is_idle()
    ensures
        idle(initial_state()),
{
}

/// Modifier events always go on unchanged; they only change which modifiers are held.
pub proof fn lemma_modifier_events_pass(cfg: EngineConfig, s: EngineState, m: ModifierView, kind: EventKind)
    ensures
        engine_step(cfg, s, InputView::Modifier { modifier: m, kind }).1 == DecisionView::Pass,
        engine_step(cfg, s, InputView::Modifier { modifier: m, kind }).0.held == match kind {
            EventKind::Down => s.held.insert(m),
            EventKind::Up => s.held.remove(m),
        },
{
}

/// Pressing and releasing the Hyper key with nothing in between suppresses both events and
/// taps the Hyper tap chord; Hyper is up again afterwards.
pub proof fn lemma_hyper_tap(cfg: EngineConfig, s: EngineState)
    requires
        !s.hyper_active,
    ensures
        ({
            let down = engine_step(cfg, s, key_event(cfg.0.0, EventKind::Down, false));
            let up = engine_step(cfg, down.0, key_event(cfg.0.0, EventKind::Up, false));
            &&& down.1 == DecisionView::Suppress
            &&& down.0.hyper_active
            &&& up.1 == DecisionView::Trigger(ActionView::SendKeys(cfg.0.1))
            &&& !up.0.hyper_active
        }),
{
}

/// While the Hyper key is down, a press of any other key or modifier cancels its tap:
/// releasing Hyper afterwards is suppressed.
pub proof fn lemma_other_input_cancels_hyper_tap(cfg: EngineConfig, s: EngineState, input: InputView)
    requires
        s.hyper_active,
        match input {
            InputView::Modifier { kind, .. } => kind == EventKind::Down,
            InputView::Key { key, kind, repeat } => kind == EventKind::Down && !repeat && key
                != cfg.0.0 && (role_index(cfg.1, key) is Some ==> !s.active.dom().contains(key)),
        },
    ensures
        ({
            let mid = engine_step(cfg, s, input).0;
            &&& mid.hyper_active
            &&& mid.hyper_used
            &&& engine_step(cfg, mid, key_event(cfg.0.0, EventKind::Up, false)).1
                == DecisionView::Suppress
        }),
{
    if let InputView::Key { key, .. } = input {
        lemma_role_index_key(cfg.1, key);
    }
}

/// A key whose press triggers an action stays consumed until it is released: its repeats
/// and its release are suppressed, and the release ends it.
pub proof fn lemma_triggering_key_is_consumed(cfg: EngineConfig, s: EngineState, key: Seq<char>)
    requires
        key != cfg.0.0,
        role_index(cfg.1, key) is None,
        engine_step(cfg, s, key_event(key, EventKind::Down, false)).1 is Trigger,
    ensures
        ({
            let mid = engine_step(cfg, s, key_event(key, EventKind::Down, false)).0;
            let up = engine_step(cfg, mid, key_event(key, EventKind::Up, false));
            &&& engine_step(cfg, mid, key_event(key, EventKind::Down, true)) == (
                mid,
                DecisionView::Suppress,
            )
            &&& up.1 == DecisionView::Suppress
            &&& !up.0.consumed.contains(key)
        }),
{
}

/// The chord a key press previews is the chord its handling looks up: the press triggers
/// the binding that chord selects, and otherwise goes on, with Hyper's modifiers while
/// Hyper is down.
pub proof fn lemma_preview_is_lookup(cfg: EngineConfig, s: EngineState, input: InputView)
    requires
        preview_spec(cfg, s, input) is Some,
    ensures
        engine_step(cfg, s, input).1 == match best_binding(cfg.2, preview_spec(cfg, s, input)->0) {
            Some(i) => DecisionView::Trigger(cfg.2[i].1),
            None => if s.hyper_active {
                DecisionView::PassWithModifiers(cfg.0.2)
            } else {
                DecisionView::Pass
            },
        },
{
    if let InputView::Key { key, .. } = input {
        lemma_note_keeps_chord(cfg.1, s, key);
    }
}

/// While Hyper is down, a key press that selects no binding goes on with Hyper's
/// modifiers, and so does its release.
pub proof fn lemma_unbound_key_under_hyper_is_rewritten(cfg: EngineConfig, s: EngineState, key: Seq<char>)
    requires
        s.hyper_active,
        key != cfg.0.0,
        role_index(cfg.1, key) is None,
        !s.consumed.contains(key),
        best_binding(cfg.2, current_chord(cfg.1, s, key)) is None,
    ensures
        ({
            let down = engine_step(cfg, s, key_event(key, EventKind::Down, false));
            let up = engine_step(cfg, down.0, key_event(key, EventKind::Up, false));
            &&& down.1 == DecisionView::PassWithModifiers(cfg.0.2)
            &&& up.1 == DecisionView::PassWithModifiers(cfg.0.2)
            &&& !up.0.rewritten.contains(key)
        }),
{
    lemma_note_keeps_chord(cfg.1, s, key);
}

/// From an idle engine, pressing Hyper, pressing and releasing another key, and releasing
/// Hyper leaves the engine idle again; it is not idle while Hyper is down.
pub proof fn lemma_hyper_chord_returns_to_idle(cfg: EngineConfig, s: EngineState, key: Seq<char>)
    requires
        idle(s),
        key != cfg.0.0,
        role_index(cfg.1, key) is None,
    ensures
        ({
            let s1 = engine_step(cfg, s, key_event(cfg.0.0, EventKind::Down, false)).0;
            let s2 = engine_step(cfg, s1, key_event(key, EventKind::Down, false)).0;
            let s3 = engine_step(cfg, s2, key_event(key, EventKind::Up, false)).0;
            let s4 = engine_step(cfg, s3, key_event(cfg.0.0, EventKind::Up, false)).0;
            &&& !idle(s1)
            &&& !idle(s2)
            &&& idle(s4)
        }),
{
    let s1 = engine_step(cfg, s, key_event(cfg.0.0, EventKind::Down, false)).0;
    assert(s1.active.dom() =~= Set::<Seq<char>>::empty());
    let s2 = engine_step(cfg, s1, key_event(key, EventKind::Down, false)).0;
    let t = note_other_input(s1);
    assert(t.active.dom() =~= Set::<Seq<char>>::empty());
    let s3 = engine_step(cfg, s2, key_event(key, EventKind::Up, false)).0;
    assert(s2.consumed.contains(key) || s2.rewritten.contains(key));
    assert(s3.consumed =~= Set::<Seq<char>>::empty());
    assert(s3.rewritten =~= Set::<Seq<char>>::empty());
    assert(s3.active.dom() =~= Set::<Seq<char>>::empty());
}

/// Pressing and releasing a dual-role key with nothing in between suppresses both events
/// and taps its tap chord, joined by the modifiers held when it went down.
pub proof fn lemma_dual_role_tap(cfg: EngineConfig, s: EngineState, key: Seq<char>)
    requires
        key != cfg.0.0,
        role_index(cfg.1, key) is Some,
        !s.active.dom().contains(key),
    ensures
        ({
            let role = cfg.1[role_index(cfg.1, key)->0];
            let down = engine_step(cfg, s, key_event(key, EventKind::Down, false));
            let up = engine_step(cfg, down.0, key_event(key, EventKind::Up, false));
            &&& down.1 == DecisionView::Suppress
            &&& up.1 == DecisionView::Trigger(
                ActionView::SendKeys((sorted_of(role.1.0.to_set().union(s.held)), role.1.1)),
            )
            &&& !up.0.active.dom().contains(key)
        }),
{
    lemma_role_index_key(cfg.1, key);
}

/// While a dual-role key is down, its hold modifier joins the chord of every other key
/// pressed; once another key has been pressed, releasing the dual-role key taps nothing.
pub proof fn lemma_dual_role_hold(cfg: EngineConfig, s: EngineState, role_key: Seq<char>, other: Seq<char>)
    requires
        role_key != cfg.0.0,
        role_index(cfg.1, role_key) is Some,
        !s.active.dom().contains(role_key),
        other != cfg.0.0,
        role_index(cfg.1, other) is None,
    ensures
        ({
            let role = cfg.1[role_index(cfg.1, role_key)->0];
            let s1 = engine_step(cfg, s, key_event(role_key, EventKind::Down, false)).0;
            let s2 = engine_step(cfg, s1, key_event(other, EventKind::Down, false)).0;
            &&& chord_modifier_set(cfg.1, s1).contains((14nat, role.2))
            &&& engine_step(cfg, s2, key_event(role_key, EventKind::Up, false)).1
                == DecisionView::Suppress
        }),
{
    lemma_role_index_key(cfg.1, role_key);
    let s1 = engine_step(cfg, s, key_event(role_key, EventKind::Down, false)).0;
    assert(s1.active.dom().contains(role_key));
    assert(named_from(cfg.1, role_key, (14nat, cfg.1[role_index(cfg.1, role_key)->0].2)));
}

// ---------------------------------------------------------------------------
// Laws over event histories
// ---------------------------------------------------------------------------

/// The state after a history of events.
pub open spec fn run_state(cfg: EngineConfig, s: EngineState, h: Seq<InputView>) -> EngineState
    decreases h.len(),
{
    if h.len() == 0 {
        s
    } else {
        engine_step(cfg, run_state(cfg, s, h.drop_last()), h.last()).0
    }
}

/// The decision on the `j`th event of a history.
pub open spec fn run_decision(cfg: EngineConfig, s: EngineState, h: Seq<InputView>, j: int) -> DecisionView {
    engine_step(cfg, run_state(cfg, s, h.take(j)), h[j]).1
}

/// A key that is neither the Hyper key nor a dual-role key.
pub open spec fn is_plain_key(cfg: EngineConfig, k: Seq<char>) -> bool {
    k != cfg.0.0 && role_index(cfg.1, k) is None
}

/// An event of key `k`.
pub open spec fn is_event_of(input: InputView, k: Seq<char>) -> bool {
    input matches InputView::Key { key, .. } && key == k
}

/// An event that counts as other input for a held dual-role key whatever the state: a
/// modifier going down, or a plain key going down afresh.
pub open spec fn uses_held_keys(cfg: EngineConfig, input: InputView) -> bool {
    ||| input matches InputView::Modifier { kind: EventKind::Down, .. }
    ||| (input matches InputView::Key { key, kind: EventKind::Down, repeat: false } && is_plain_key(
        cfg,
        key,
    ))
}

/// An event going up.
pub open spec fn is_release(input: InputView) -> bool {
    ||| input matches InputView::Modifier { kind: EventKind::Up, .. }
    ||| input matches InputView::Key { kind: EventKind::Up, .. }
}

/// A consumed plain key stays consumed while no event of it but a repeat press comes.
proof fn lemma_consumed_stays(cfg: EngineConfig, s: EngineState, k: Seq<char>, h: Seq<InputView>)
    requires
        is_plain_key(cfg, k),
        s.consumed.contains(k),
        forall|j: int|
            0 <= j < h.len() && is_event_of(#[trigger] h[j], k) ==> h[j] == key_event(
                k,
                EventKind::Down,
                true,
            ),
    ensures
        run_state(cfg, s, h).consumed.contains(k),
    decreases h.len(),
{
    if h.len() > 0 {
        let init = h.drop_last();
        assert forall|j: int| 0 <= j < init.len() && is_event_of(#[trigger] init[j], k) implies init[j]
            == key_event(k, EventKind::Down, true) by {
            assert(init[j] == h[j]);
        }
        lemma_consumed_stays(cfg, s, k, init);
        let last = h.last();
        assert(h[h.len() - 1] == last);
        if let InputView::Key { key, kind, repeat } = last {
            if key != k {
                lemma_role_index_key(cfg.1, key);
            }
        }
    }
}

/// A key whose press triggered an action has its release suppressed, and each repeat of the
/// press on the way, whatever other keys and modifiers do in between.
pub proof fn lemma_consumed_key_stays_consumed(cfg: EngineConfig, s: EngineState, k: Seq<char>, h: Seq<InputView>)
    requires
        is_plain_key(cfg, k),
        engine_step(cfg, s, key_event(k, EventKind::Down, false)).1 is Trigger,
        forall|j: int|
            0 <= j < h.len() && is_event_of(#[trigger] h[j], k) ==> h[j] == key_event(
                k,
                EventKind::Down,
                true,
            ),
    ensures
        ({
            let s1 = engine_step(cfg, s, key_event(k, EventKind::Down, false)).0;
            &&& forall|j: int|
                0 <= j < h.len() && is_event_of(#[trigger] h[j], k) ==> run_decision(cfg, s1, h, j)
                    == DecisionView::Suppress
            &&& engine_step(cfg, run_state(cfg, s1, h), key_event(k, EventKind::Up, false)).1
                == DecisionView::Suppress
        }),
{
    let s1 = engine_step(cfg, s, key_event(k, EventKind::Down, false)).0;
    assert(s1.consumed.contains(k));
    assert forall|j: int| 0 <= j < h.len() && is_event_of(#[trigger] h[j], k) implies run_decision(
        cfg,
        s1,
        h,
        j,
    ) == DecisionView::Suppress by {
        let p = h.take(j);
        assert forall|x: int| 0 <= x < p.len() && is_event_of(#[trigger] p[x], k) implies p[x]
            == key_event(k, EventKind::Down, true) by {
            assert(p[x] == h[x]);
        }
        lemma_consumed_stays(cfg, s1, k, p);
    }
    lemma_consumed_stays(cfg, s1, k, h);
}

/// A rewritten plain key stays rewritten, and not consumed, while no event of it comes.
proof fn lemma_rewritten_stays(cfg: EngineConfig, s: EngineState, k: Seq<char>, h: Seq<InputView>)
    requires
        is_plain_key(cfg, k),
        s.rewritten.contains(k),
        !s.consumed.contains(k),
        forall|j: int| 0 <= j < h.len() ==> !is_event_of(#[trigger] h[j], k),
    ensures
        run_state(cfg, s, h).rewritten.contains(k),
        !run_state(cfg, s, h).consumed.contains(k),
    decreases h.len(),
{
    if h.len() > 0 {
        let init = h.drop_last();
        assert forall|j: int| 0 <= j < init.len() implies !is_event_of(#[trigger] init[j], k) by {
            assert(init[j] == h[j]);
        }
        lemma_rewritten_stays(cfg, s, k, init);
        let last = h.last();
        assert(!is_event_of(h[h.len() - 1], k));
        if let InputView::Key { key, kind, repeat } = last {
            lemma_role_index_key(cfg.1, key);
        }
    }
}

/// A key passed on with Hyper's modifiers is released with them too, whatever other keys and
/// modifiers do in between.
pub proof fn lemma_rewritten_key_stays_rewritten(
    cfg: EngineConfig,
    s: EngineState,
    k: Seq<char>,
    h: Seq<InputView>,
)
    requires
        is_plain_key(cfg, k),
        !s.consumed.contains(k),
        engine_step(cfg, s, key_event(k, EventKind::Down, false)).1 is PassWithModifiers,
        forall|j: int| 0 <= j < h.len() ==> !is_event_of(#[trigger] h[j], k),
    ensures
        ({
            let down = engine_step(cfg, s, key_event(k, EventKind::Down, false));
            &&& down.1 == DecisionView::PassWithModifiers(cfg.0.2)
            &&& engine_step(cfg, run_state(cfg, down.0, h), key_event(k, EventKind::Up, false)).1
                == down.1
        }),
{
    let s1 = engine_step(cfg, s, key_event(k, EventKind::Down, false)).0;
    assert(s1.rewritten.contains(k));
    lemma_rewritten_stays(cfg, s1, k, h);
}

/// A held dual-role key stays held while no event of it comes; once used it stays used,
/// and it becomes used on the first event that uses held keys.
proof fn lemma_dual_role_stays(cfg: EngineConfig, s: EngineState, k: Seq<char>, h: Seq<InputView>)
    requires
        s.active.dom().contains(k),
        forall|j: int| 0 <= j < h.len() ==> !is_event_of(#[trigger] h[j], k),
    ensures
        run_state(cfg, s, h).active.dom().contains(k),
        (s.active[k].0 || exists|j: int| 0 <= j < h.len() && uses_held_keys(cfg, #[trigger] h[j]))
            ==> run_state(cfg, s, h).active[k].0,
        (forall|j: int| 0 <= j < h.len() ==> is_release(#[trigger] h[j])) ==> run_state(
            cfg,
            s,
            h,
        ).active[k] == s.active[k],
    decreases h.len(),
{
    if h.len() > 0 {
        let init = h.drop_last();
        assert forall|j: int| 0 <= j < init.len() implies !is_event_of(#[trigger] init[j], k) by {
            assert(init[j] == h[j]);
        }
        lemma_dual_role_stays(cfg, s, k, init);
        let last = h.last();
        assert(!is_event_of(h[h.len() - 1], k));
        if let InputView::Key { key, kind, repeat } = last {
            lemma_role_index_key(cfg.1, key);
        }
        if exists|j: int| 0 <= j < h.len() && uses_held_keys(cfg, #[trigger] h[j]) {
            let j = choose|j: int| 0 <= j < h.len() && uses_held_keys(cfg, #[trigger] h[j]);
            if j < h.len() - 1 {
                assert(uses_held_keys(cfg, init[j]));
            }
        }
        if forall|j: int| 0 <= j < h.len() ==> is_release(#[trigger] h[j]) {
            assert forall|j: int| 0 <= j < init.len() implies is_release(#[trigger] init[j]) by {
                assert(init[j] == h[j]);
            }
            assert(is_release(h[h.len() - 1]));
        }
    }
}

/// A dual-role key pressed and released with only releases in between taps its key, with
/// the modifiers held when it went down.
pub proof fn lemma_dual_role_tap_over_releases(
    cfg: EngineConfig,
    s: EngineState,
    k: Seq<char>,
    h: Seq<InputView>,
)
    requires
        k != cfg.0.0,
        role_index(cfg.1, k) is Some,
        !s.active.dom().contains(k),
        forall|j: int| 0 <= j < h.len() ==> !is_event_of(#[trigger] h[j], k) && is_release(h[j]),
    ensures
        ({
            let role = cfg.1[role_index(cfg.1, k)->0];
            let down = engine_step(cfg, s, key_event(k, EventKind::Down, false));
            &&& down.1 == DecisionView::Suppress
            &&& engine_step(cfg, run_state(cfg, down.0, h), key_event(k, EventKind::Up, false)).1
                == DecisionView::Trigger(
                ActionView::SendKeys((sorted_of(role.1.0.to_set().union(s.held)), role.1.1)),
            )
        }),
{
    lemma_role_index_key(cfg.1, k);
    let s1 = engine_step(cfg, s, key_event(k, EventKind::Down, false)).0;
    assert(s1.active.dom().contains(k));
    assert(s1.active[k] == (false, s.held));
    lemma_dual_role_stays(cfg, s1, k, h);
}

/// A dual-role key taps nothing once a modifier or a plain key went down while it was held,
/// whatever else comes in between.
pub proof fn lemma_dual_role_used_taps_nothing(
    cfg: EngineConfig,
    s: EngineState,
    k: Seq<char>,
    h: Seq<InputView>,
    j: int,
)
    requires
        k != cfg.0.0,
        role_index(cfg.1, k) is Some,
        !s.active.dom().contains(k),
        forall|x: int| 0 <= x < h.len() ==> !is_event_of(#[trigger] h[x], k),
        0 <= j < h.len(),
        uses_held_keys(cfg, h[j]),
    ensures
        ({
            let down = engine_step(cfg, s, key_event(k, EventKind::Down, false));
            engine_step(cfg, run_state(cfg, down.0, h), key_event(k, EventKind::Up, false)).1
                == DecisionView::Suppress
        }),
{
    lemma_role_index_key(cfg.1, k);
    let s1 = engine_step(cfg, s, key_event(k, EventKind::Down, false)).0;
    assert(s1.active.dom().contains(k));
    lemma_dual_role_stays(cfg, s1, k, h);
}

/// The last event of key `k` in a history is a press, a repeat or not.
pub open spec fn last_event_down(h: Seq<InputView>, k: Seq<char>) -> bool
    decreases h.len(),
{
    if h.len() == 0 {
        false
    } else if is_event_of(h.last(), k) {
        h.last() matches InputView::Key { kind: EventKind::Down, .. }
    } else {
        last_event_down(h.drop_last(), k)
    }
}

/// Key `k` went down afresh and has not gone up since; repeats change nothing.
pub open spec fn key_down(h: Seq<InputView>, k: Seq<char>) -> bool
    decreases h.len(),
{
    if h.len() == 0 {
        false
    } else if h.last() matches InputView::Key { key, kind: EventKind::Up, .. } && key == k {
        false
    } else if h.last() == key_event(k, EventKind::Down, false) {
        true
    } else {
        key_down(h.drop_last(), k)
    }
}

/// The last event of modifier `m` in a history is a press.
pub open spec fn modifier_down(h: Seq<InputView>, m: ModifierView) -> bool
    decreases h.len(),
{
    if h.len() == 0 {
        false
    } else {
        match h.last() {
            InputView::Modifier { modifier, kind } => if modifier == m {
                kind == EventKind::Down
            } else {
                modifier_down(h.drop_last(), m)
            },
            _ => modifier_down(h.drop_last(), m),
        }
    }
}

/// The last event of plain key `k` is a press that triggered an action or went on with
/// Hyper's modifiers: its release is still to come.
pub open spec fn awaiting_release(cfg: EngineConfig, h: Seq<InputView>, k: Seq<char>) -> bool
    decreases h.len(),
{
    if h.len() == 0 {
        false
    } else if is_event_of(h.last(), k) {
        &&& h.last() matches InputView::Key { kind: EventKind::Down, .. }
        &&& {
            let d = engine_step(cfg, run_state(cfg, initial_state(), h.drop_last()), h.last()).1;
            d is Trigger || d is PassWithModifiers
        }
    } else {
        awaiting_release(cfg, h.drop_last(), k)
    }
}

/// No plain key is pressed again, repeat or not, before it has gone up.
pub open spec fn no_press_while_down(cfg: EngineConfig, h: Seq<InputView>) -> bool {
    forall|j: int|
        0 <= j < h.len() ==> match #[trigger] h[j] {
            InputView::Key { key, kind: EventKind::Down, .. } => is_plain_key(cfg, key) ==> !last_event_down(
                h.take(j),
                key,
            ),
            _ => true,
        }
}

/// What the state after a history from a fresh engine holds.
pub open spec fn history_invariant(cfg: EngineConfig, h: Seq<InputView>, s: EngineState) -> bool {
    &&& forall|m: ModifierView| #[trigger] s.held.contains(m) == modifier_down(h, m)
    &&& s.hyper_active == key_down(h, cfg.0.0)
    &&& forall|k: Seq<char>|
        #[trigger] s.active.dom().contains(k) ==> role_index(cfg.1, k) is Some && k != cfg.0.0
    &&& forall|k: Seq<char>|
        role_index(cfg.1, k) is Some && k != cfg.0.0 ==> #[trigger] s.active.dom().contains(k)
            == key_down(h, k)
    &&& forall|k: Seq<char>|
        #[trigger] s.consumed.contains(k) ==> is_plain_key(cfg, k) && last_event_down(h, k)
            && !s.rewritten.contains(k)
    &&& forall|k: Seq<char>|
        #[trigger] s.rewritten.contains(k) ==> is_plain_key(cfg, k) && last_event_down(h, k)
    &&& forall|k: Seq<char>|
        is_plain_key(cfg, k) ==> (s.consumed.contains(k) || s.rewritten.contains(k))
            == #[trigger] awaiting_release(cfg, h, k)
}

proof fn lemma_mark_used_dom(s: EngineState)
    ensures
        mark_used(s).active.dom() == s.active.dom(),
        note_other_input(s).active.dom() == s.active.dom(),
{
    assert(mark_used(s).active.dom() =~= s.active.dom());
    let t = EngineState { hyper_used: s.hyper_active || s.hyper_used, ..s };
    assert(mark_used(t).active.dom() =~= t.active.dom());
}

proof fn lemma_history_invariant(cfg: EngineConfig, h: Seq<InputView>)
    requires
        no_press_while_down(cfg, h),
    ensures
        history_invariant(cfg, h, run_state(cfg, initial_state(), h)),
    decreases h.len(),
{
    if h.len() > 0 {
        let p = h.drop_last();
        let x = h.last();
        assert(no_press_while_down(cfg, p)) by {
            assert forall|j: int| 0 <= j < p.len() implies match #[trigger] p[j] {
                InputView::Key { key, kind: EventKind::Down, .. } => is_plain_key(cfg, key)
                    ==> !last_event_down(p.take(j), key),
                _ => true,
            } by {
                assert(p[j] == h[j]);
                assert(p.take(j) =~= h.take(j));
            }
        }
        lemma_history_invariant(cfg, p);
        let s = run_state(cfg, initial_state(), p);
        assert(h[h.len() - 1] == x);
        assert(h.take(h.len() - 1) =~= p);
        lemma_mark_used_dom(s);
        match x {
            InputView::Modifier { modifier, kind } => {
                let t = engine_step(cfg, s, x).0;
                assert forall|k: Seq<char>| #[trigger] t.active.dom().contains(k) == s.active.dom().contains(k) by {
                    lemma_mark_used_dom(EngineState { held: s.held.insert(modifier), ..s });
                }
            },
            InputView::Key { key, kind, repeat } => {
                lemma_role_index_key(cfg.1, key);
                let t = engine_step(cfg, s, x).0;
                if key == cfg.0.0 {
                    lemma_mark_used_dom(EngineState { hyper_active: true, hyper_used: false, ..s });
                } else if role_index(cfg.1, key) is Some {
                    lemma_mark_used_dom(s);
                } else {
                    if kind == EventKind::Down && !(repeat && s.consumed.contains(key)) {
                        assert(!last_event_down(p, key));
                    }
                }
            },
        }
        let t = engine_step(cfg, s, x).0;
        assert forall|k: Seq<char>| is_plain_key(cfg, k) implies (t.consumed.contains(k)
            || t.rewritten.contains(k)) == #[trigger] awaiting_release(cfg, h, k) by {
            if is_event_of(x, k) {
                if x matches InputView::Key { kind: EventKind::Down, .. } {
                    assert(!last_event_down(p, k));
                    assert(!s.consumed.contains(k));
                    assert(!s.rewritten.contains(k));
                }
            } else {
                assert(awaiting_release(cfg, h, k) == awaiting_release(cfg, p, k));
                assert(s.consumed.contains(k) == t.consumed.contains(k)) by {
                    if let InputView::Key { key, .. } = x {
                        lemma_role_index_key(cfg.1, key);
                    }
                }
                assert(s.rewritten.contains(k) == t.rewritten.contains(k)) by {
                    if let InputView::Key { key, .. } = x {
                        lemma_role_index_key(cfg.1, key);
                    }
                }
            }
        }
    }
}

/// After a history from a fresh engine in which no plain key is pressed again before it has
/// gone up, the engine is idle exactly when no modifier, no Hyper key and no dual-role key
/// is down, and no key whose press triggered an action or went on with Hyper's modifiers
/// awaits its release.
pub proof fn lemma_idle_after_history(cfg: EngineConfig, h: Seq<InputView>)
    requires
        no_press_while_down(cfg, h),
    ensures
        idle(run_state(cfg, initial_state(), h)) <==> {
            &&& forall|m: ModifierView| !#[trigger] modifier_down(h, m)
            &&& !key_down(h, cfg.0.0)
            &&& forall|k: Seq<char>|
                role_index(cfg.1, k) is Some && k != cfg.0.0 ==> !#[trigger] key_down(h, k)
            &&& forall|k: Seq<char>| is_plain_key(cfg, k) ==> !#[trigger] awaiting_release(cfg, h, k)
        },
{
    let s = run_state(cfg, initial_state(), h);
    lemma_history_invariant(cfg, h);
    if idle(s) {
        assert forall|m: ModifierView| !#[trigger] modifier_down(h, m) by {
            assert(!s.held.contains(m));
        }
        assert forall|k: Seq<char>| role_index(cfg.1, k) is Some && k != cfg.0.0 implies !#[trigger] key_down(
            h,
            k,
        ) by {
            assert(!s.active.dom().contains(k));
        }
        assert forall|k: Seq<char>| is_plain_key(cfg, k) implies !#[trigger] awaiting_release(cfg, h, k) by {
            assert(!s.consumed.contains(k));
            assert(!s.rewritten.contains(k));
        }
    }
    if (forall|m: ModifierView| !#[trigger] modifier_down(h, m)) && !key_down(h, cfg.0.0) && (forall|
        k: Seq<char>,
    | role_index(cfg.1, k) is Some && k != cfg.0.0 ==> !#[trigger] key_down(h, k)) && (forall|
        k: Seq<char>,
    | is_plain_key(cfg, k) ==> !#[trigger] awaiting_release(cfg, h, k)) {
        assert(s.held =~= Set::<ModifierView>::empty());
        assert(s.active.dom() =~= Set::<Seq<char>>::empty()) by {
            assert forall|k: Seq<char>| !s.active.dom().contains(k) by {
                if s.active.dom().contains(k) {
                    assert(!key_down(h, k));
                }
            }
        }
        assert(s.consumed =~= Set::<Seq<char>>::empty()) by {
            assert forall|k: Seq<char>| !s.consumed.contains(k) by {
                if s.consumed.contains(k) {
                    assert(!awaiting_release(cfg, h, k));
                }
            }
        }
        assert(s.rewritten =~= Set::<Seq<char>>::empty()) by {
            assert forall|k: Seq<char>| !s.rewritten.contains(k) by {
                if s.rewritten.contains(k) {
                    assert(!awaiting_release(cfg, h, k));
                }
            }
        }
    }
}

} // verus!
