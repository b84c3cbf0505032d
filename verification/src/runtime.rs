//! The engine as the keyboard hook runs it: reloaded configurations wait until no chord
//! is in progress, and each triggered action becomes a job that remembers its chord.
use vstd::prelude::*;

use std::sync::mpsc::Receiver;

use crate::config::{Action, ActionView, CompiledConfig};
use crate::engine::{
    Decision, DecisionView, Engine, EngineState, Input, InputView, config_model, engine_step, idle,
    initial_state, preview_spec,
};
use crate::feedback::{ActionJob, ActionJobView};
use crate::key::{Chord, ChordView, Key};

verus! {

/// The receiving end of a channel, from std.
#[verifier::external_type_specification]
#[verifier::external_body]
#[verifier::reject_recursive_types(T)]
pub struct ExReceiver<T>(std::sync::mpsc::Receiver<T>);

/// Every configuration already waiting in the channel, oldest first, taken without
/// waiting (std's `Receiver::try_iter`, collected). What is waiting depends on other
/// threads, so nothing is stated of it.
#[verifier::external_body]
fn take_waiting(receiver: &Receiver<CompiledConfig>) -> Vec<CompiledConfig> {
    receiver.try_iter().collect()
}

/// What a reload did.
#[derive(Debug, PartialEq, Eq, Structural)]
pub enum ReloadNotice {
    /// A configuration with this many enabled bindings now runs.
    Applied(usize),
    /// A configuration was refused because it changes the Hyper key.
    HyperKeyChanged,
}

/// The outcome of one event.
#[derive(Debug)]
pub struct HandledEvent {
    /// What happens to the event.
    pub decision: Decision,
    /// The chord the event formed, when it was observed and formed one.
    pub chord: Option<Chord>,
    /// The action to run, when the event triggered one.
    pub action_job: Option<ActionJob>,
    /// What reloads happened around the event.
    pub notices: Vec<ReloadNotice>,
}

pub type HandledView = (DecisionView, Option<ChordView>, Option<ActionJobView>, Seq<ReloadNotice>);

impl View for HandledEvent {
    type V = HandledView;

    open spec fn view(&self) -> HandledView {
        (
            self.decision@,
            match self.chord {
                Some(c) => Some(c@),
                None => None,
            },
            match self.action_job {
                Some(j) => Some(j@),
                None => None,
            },
            self.notices@,
        )
    }
}

// ---------------------------------------------------------------------------
// The model
// ---------------------------------------------------------------------------

/// The configuration waiting after `received` arrive: the last one that keeps the Hyper
/// key, or the one that waited before.
pub open spec fn pending_after(
    pending: Option<CompiledConfig>,
    received: Seq<CompiledConfig>,
    hyper_key: Seq<char>,
) -> Option<CompiledConfig>
    decreases received.len(),
{
    if received.len() == 0 {
        pending
    } else {
        let before = pending_after(pending, received.drop_last(), hyper_key);
        if received.last().hyper.key@ == hyper_key {
            Some(received.last())
        } else {
            before
        }
    }
}

/// Some received configuration changes the Hyper key.
pub open spec fn changes_hyper_key(received: Seq<CompiledConfig>, hyper_key: Seq<char>) -> bool {
    exists|i: int| 0 <= i < received.len() && (#[trigger] received[i]).hyper.key@ != hyper_key
}

/// Installing the waiting configuration when the engine is idle: the configuration, the
/// state, what still waits, and the binding count of what was installed.
pub open spec fn apply_spec(cfg: CompiledConfig, st: EngineState, pending: Option<CompiledConfig>) -> (
    CompiledConfig,
    EngineState,
    Option<CompiledConfig>,
    Option<usize>,
) {
    match pending {
        Some(next) => if idle(st) {
            (
                next,
                EngineState { released: Set::empty(), ..st },
                None,
                Some(next.bindings@.len() as usize),
            )
        } else {
            (cfg, st, pending, None)
        },
        None => (cfg, st, pending, None),
    }
}

pub open spec fn with_applied(notices: Seq<ReloadNotice>, applied: Option<usize>) -> Seq<ReloadNotice> {
    match applied {
        Some(n) => notices.push(ReloadNotice::Applied(n)),
        None => notices,
    }
}

/// The key of a key event.
pub open spec fn pressed_key(input: InputView) -> Option<Seq<char>> {
    match input {
        InputView::Key { key, .. } => Some(key),
        InputView::Modifier { .. } => None,
    }
}

/// The chord a job reports: the chord that triggered it; for a tap, which resolves on
/// release, the chord it emits; otherwise the pressed key alone.
pub open spec fn job_chord_spec(
    action: ActionView,
    triggering: Option<ChordView>,
    pressed: Option<Seq<char>>,
) -> Option<ChordView> {
    match triggering {
        Some(c) => Some(c),
        None => match action {
            ActionView::SendKeys(c) => Some(c),
            _ => match pressed {
                Some(k) => Some((Seq::empty(), k)),
                None => None,
            },
        },
    }
}

/// One event: configurations `received` from the channel are taken first; a waiting one
/// is installed before the event when the engine is idle; the engine handles the event; a
/// waiting one is installed after it when the engine is then idle. The result is the new
/// configuration, state and waiting configuration, and what the event gives.
pub open spec fn process_spec(
    cfg: CompiledConfig,
    st: EngineState,
    pending: Option<CompiledConfig>,
    received: Seq<CompiledConfig>,
    input: InputView,
    observe: bool,
) -> (CompiledConfig, EngineState, Option<CompiledConfig>, HandledView) {
    let hyper_key = cfg.hyper.key@;
    let waiting = pending_after(pending, received, hyper_key);
    let notices = if changes_hyper_key(received, hyper_key) {
        seq![ReloadNotice::HyperKeyChanged]
    } else {
        Seq::empty()
    };
    let before = apply_spec(cfg, st, waiting);
    let notices = with_applied(notices, before.3);
    let model = config_model(before.0);
    let preview = preview_spec(model, before.1, input);
    let step = engine_step(model, before.1, input);
    let job = match step.1 {
        DecisionView::Trigger(a) => match job_chord_spec(a, preview, pressed_key(input)) {
            Some(c) => Some((c, a, before.0.ui.feedback)),
            None => None,
        },
        _ => None,
    };
    let after = apply_spec(before.0, step.0, before.2);
    (
        after.0,
        after.1,
        after.2,
        (step.1, if observe { preview } else { None }, job, with_applied(notices, after.3)),
    )
}

// ---------------------------------------------------------------------------
// The runtime
// ---------------------------------------------------------------------------

/// The chord a job reports.
pub fn job_chord(action: &Action, triggering: Option<Chord>, pressed: Option<Key>) -> (r: Option<
    Chord,
>)
    ensures
        match r {
            Some(c) => job_chord_spec(
                action@,
                match triggering {
                    Some(t) => Some(t@),
                    None => None,
                },
                match pressed {
                    Some(k) => Some(k@),
                    None => None,
                },
            ) == Some(c@),
            None => job_chord_spec(
                action@,
                match triggering {
                    Some(t) => Some(t@),
                    None => None,
                },
                match pressed {
                    Some(k) => Some(k@),
                    None => None,
                },
            ) is None,
        },
{
    if let Some(chord) = triggering {
        return Some(chord);
    }
    if let Action::SendKeys(emitted) = action {
        return Some(emitted.clone());
    }
    match pressed {
        Some(key) => {
            let chord = Chord::new(Vec::new(), key);
            proof {
                assert(crate::key::canonical_modifiers(crate::key::modifier_views(Seq::<crate::key::Modifier>::empty())) =~= Seq::empty());
            }
            Some(chord)
        },
        None => None,
    }
}

/// The engine with configuration reloads.
pub struct ReloadingEngine {
    engine: Engine,
    config_receiver: Receiver<CompiledConfig>,
    pending_config: Option<CompiledConfig>,
}

impl ReloadingEngine {
    /// The configuration the engine runs.
    pub closed spec fn config(&self) -> CompiledConfig {
        self.engine.config_spec()
    }

    /// The engine's state.
    pub closed spec fn state(&self) -> EngineState {
        self.engine.state()
    }

    /// The configuration waiting to be installed.
    pub closed spec fn pending(&self) -> Option<CompiledConfig> {
        self.pending_config
    }

    pub fn new(config: CompiledConfig, config_receiver: Receiver<CompiledConfig>) -> (r: ReloadingEngine)
        ensures
            r.config() == config,
            r.state() == initial_state(),
            r.pending() is None,
    {
        ReloadingEngine { engine: Engine::new(config), config_receiver, pending_config: None }
    }

    /// Handles one event as the daemon does; no chord is reported. The configurations
    /// taken from the channel are whatever other threads had sent.
    pub fn handle(&mut self, input: Input) -> (r: HandledEvent)
        ensures
            exists|received: Seq<CompiledConfig>|
                (final(self).config(), final(self).state(), final(self).pending(), r@) == process_spec(
                    old(self).config(),
                    old(self).state(),
                    old(self).pending(),
                    received,
                    input@,
                    false,
                ),
    {
        self.process(input, false)
    }

    /// Handles one event as the listener does, reporting the chord a key press forms.
    pub fn observe(&mut self, input: Input) -> (r: HandledEvent)
        ensures
            exists|received: Seq<CompiledConfig>|
                (final(self).config(), final(self).state(), final(self).pending(), r@) == process_spec(
                    old(self).config(),
                    old(self).state(),
                    old(self).pending(),
                    received,
                    input@,
                    true,
                ),
    {
        self.process(input, true)
    }

    fn process(&mut self, input: Input, observe: bool) -> (r: HandledEvent)
        ensures
            exists|received: Seq<CompiledConfig>|
                (final(self).config(), final(self).state(), final(self).pending(), r@) == process_spec(
                    old(self).config(),
                    old(self).state(),
                    old(self).pending(),
                    received,
                    input@,
                    observe,
                ),
    {
        let received = take_waiting(&self.config_receiver);
        let ghost seen = received@;
        let r = self.process_received(received, input, observe);
        proof {
            assert((self.config(), self.state(), self.pending(), r@) == process_spec(
                old(self).config(),
                old(self).state(),
                old(self).pending(),
                seen,
                input@,
                observe,
            ));
        }
        r
    }

    /// Handles one event after the configurations `received` from the channel, oldest
    /// first.
    pub fn process_received(&mut self, received: Vec<CompiledConfig>, input: Input, observe: bool) -> (r:
        HandledEvent)
        ensures
            (final(self).config(), final(self).state(), final(self).pending(), r@) == process_spec(
                old(self).config(),
                old(self).state(),
                old(self).pending(),
                received@,
                input@,
                observe,
            ),
    {
        let mut notices: Vec<ReloadNotice> = Vec::new();
        self.drain_configs(received, &mut notices);
        self.apply_if_idle(&mut notices);
        let ghost cfg = self.config();
        let ghost st = self.state();
        let preview_chord = self.engine.preview_chord(&input);
        let chord = if observe {
            match &preview_chord {
                Some(c) => Some(c.clone()),
                None => None,
            }
        } else {
            None
        };
        let pressed = match &input {
            Input::Key { key, .. } => Some(key.clone()),
            Input::Modifier { .. } => None,
        };
        let feedback = self.engine.feedback_policy();
        let decision = self.engine.handle(input);
        let action_job = match &decision {
            Decision::Trigger(action) => match job_chord(action, preview_chord, pressed) {
                Some(c) => Some(ActionJob { chord: c, action: action.clone(), feedback }),
                None => None,
            },
            _ => None,
        };
        self.apply_if_idle(&mut notices);
        let r = HandledEvent { decision, chord, action_job, notices };
        proof {
            let spec = process_spec(
                old(self).config(),
                old(self).state(),
                old(self).pending(),
                received@,
                input@,
                observe,
            );
            assert(r@.3 =~= spec.3.3);
        }
        r
    }

    /// Takes the received configurations: one that keeps the Hyper key waits to be
    /// installed, replacing any that waited; one that changes it is refused with a notice.
    fn drain_configs(&mut self, received: Vec<CompiledConfig>, notices: &mut Vec<ReloadNotice>)
        ensures
            final(self).config() == old(self).config(),
            final(self).state() == old(self).state(),
            final(self).pending() == pending_after(old(self).pending(), received@, old(self).config().hyper.key@),
            final(notices)@ == old(notices)@ + if changes_hyper_key(received@, old(self).config().hyper.key@) {
                seq![ReloadNotice::HyperKeyChanged]
            } else {
                Seq::<ReloadNotice>::empty()
            },
    {
        let ghost all = received@;
        let ghost hk = self.config().hyper.key@;
        let mut changed = false;
        let mut queue = received;
        let n = queue.len();
        let mut i: usize = 0;
        while i < n
            invariant
                i <= n,
                n == all.len(),
                queue@ == all.skip(i as int),
                hk == self.config().hyper.key@,
                self.config() == old(self).config(),
                self.state() == old(self).state(),
                self.pending() == pending_after(old(self).pending(), all.take(i as int), hk),
                changed == changes_hyper_key(all.take(i as int), hk),
            decreases n - i,
        {
            let config = queue.remove(0);
            proof {
                assert(config == all[i as int]);
                assert(queue@ =~= all.skip(i + 1));
                assert(all.take(i + 1).drop_last() =~= all.take(i as int));
                assert(all.take(i + 1).last() == all[i as int]);
            }
            if config.hyper.key.same(self.engine.hyper_key()) {
                self.pending_config = Some(config);
            } else {
                changed = true;
            }
            proof {
                if changes_hyper_key(all.take(i as int), hk) {
                    let k = choose|k: int| 0 <= k < i && (#[trigger] all.take(i as int)[k]).hyper.key@ != hk;
                    assert(all.take(i + 1)[k] == all.take(i as int)[k]);
                }
                if changes_hyper_key(all.take(i + 1), hk) && !changes_hyper_key(all.take(i as int), hk) {
                    let k = choose|k: int| 0 <= k < i + 1 && (#[trigger] all.take(i + 1)[k]).hyper.key@ != hk;
                    if k < i {
                        assert(all.take(i as int)[k] == all.take(i + 1)[k]);
                    }
                }
                if all[i as int].hyper.key@ != hk {
                    assert(all.take(i + 1)[i as int] == all[i as int]);
                }
            }
            i = i + 1;
        }
        proof {
            assert(all.take(n as int) =~= all);
        }
        if changed {
            notices.push(ReloadNotice::HyperKeyChanged);
        }
    }

    /// Installs the waiting configuration when no chord is in progress.
    fn apply_if_idle(&mut self, notices: &mut Vec<ReloadNotice>)
        ensures
            ({
                let a = apply_spec(old(self).config(), old(self).state(), old(self).pending());
                &&& final(self).config() == a.0
                &&& final(self).state() == a.1
                &&& final(self).pending() == a.2
                &&& final(notices)@ == with_applied(old(notices)@, a.3)
            }),
    {
        if !self.engine.is_idle() {
            return;
        }
        let pending = self.pending_config.take();
        match pending {
            Some(config) => {
                let count = config.bindings.len();
                self.engine.replace_config(config);
                notices.push(ReloadNotice::Applied(count));
            },
            None => {},
        }
    }
}


// ---------------------------------------------------------------------------
// Laws
// ---------------------------------------------------------------------------

/// A waiting configuration keeps the running Hyper key.
pub open spec fn keeps_hyper_key(cfg: CompiledConfig, pending: Option<CompiledConfig>) -> bool {
    pending matches Some(p) ==> p.hyper.key@ == cfg.hyper.key@
}

proof fn lemma_pending_after_keeps_key(pending: Option<CompiledConfig>, received: Seq<CompiledConfig>, hk: Seq<char>)
    requires
        pending matches Some(p) ==> p.hyper.key@ == hk,
    ensures
        pending_after(pending, received, hk) matches Some(p) ==> p.hyper.key@ == hk,
    decreases received.len(),
{
    if received.len() > 0 {
        lemma_pending_after_keeps_key(pending, received.drop_last(), hk);
    }
}

/// Reloads never change the Hyper key, so a Hyper key held down is never stranded: every
/// event keeps the Hyper key of the running configuration and of the one waiting.
pub proof fn lemma_reload_keeps_hyper_key(
    cfg: CompiledConfig,
    st: EngineState,
    pending: Option<CompiledConfig>,
    received: Seq<CompiledConfig>,
    input: InputView,
    observe: bool,
)
    requires
        keeps_hyper_key(cfg, pending),
    ensures
        ({
            let r = process_spec(cfg, st, pending, received, input, observe);
            &&& r.0.hyper.key@ == cfg.hyper.key@
            &&& keeps_hyper_key(r.0, r.2)
        }),
{
    lemma_pending_after_keeps_key(pending, received, cfg.hyper.key@);
}

/// A reload never splits a chord: the configuration changes only at an event before
/// which, or after which, the engine is idle.
pub proof fn lemma_reload_waits_for_idle(
    cfg: CompiledConfig,
    st: EngineState,
    pending: Option<CompiledConfig>,
    received: Seq<CompiledConfig>,
    input: InputView,
    observe: bool,
)
    ensures
        ({
            let r = process_spec(cfg, st, pending, received, input, observe);
            r.0 != cfg ==> idle(st) || idle(r.1)
        }),
{
}

/// Nothing waits past the end of a chord: when the engine is idle after an event, no
/// configuration is left waiting.
pub proof fn lemma_idle_leaves_nothing_waiting(
    cfg: CompiledConfig,
    st: EngineState,
    pending: Option<CompiledConfig>,
    received: Seq<CompiledConfig>,
    input: InputView,
    observe: bool,
)
    ensures
        ({
            let r = process_spec(cfg, st, pending, received, input, observe);
            idle(r.1) ==> r.2 is None
        }),
{
}

/// With nothing received and nothing waiting, an event runs on the same configuration and
/// reports no reload.
pub proof fn lemma_no_reload_without_configs(
    cfg: CompiledConfig,
    st: EngineState,
    input: InputView,
    observe: bool,
)
    ensures
        ({
            let r = process_spec(cfg, st, None, Seq::empty(), input, observe);
            &&& r.0 == cfg
            &&& r.2 is None
            &&& r.3.3 == Seq::<ReloadNotice>::empty()
        }),
{
}

/// Observing an event handles it as the daemon does: from the same configuration, state,
/// waiting configuration and configurations taken from the channel, `observe` and `handle`
/// reach the same configuration, state and waiting configuration and give the same decision,
/// job and notices; only `observe` reports a chord, the one the engine previews for the
/// event on the configuration it is handled under.
pub proof fn lemma_observe_agrees_with_handle(
    cfg: CompiledConfig,
    st: EngineState,
    pending: Option<CompiledConfig>,
    received: Seq<CompiledConfig>,
    input: InputView,
)
    ensures
        ({
            let o = process_spec(cfg, st, pending, received, input, true);
            let h = process_spec(cfg, st, pending, received, input, false);
            let before = apply_spec(cfg, st, pending_after(pending, received, cfg.hyper.key@));
            &&& (o.0, o.1, o.2) == (h.0, h.1, h.2)
            &&& o.3.0 == h.3.0
            &&& o.3.2 == h.3.2
            &&& o.3.3 == h.3.3
            &&& h.3.1 is None
            &&& o.3.1 == preview_spec(config_model(before.0), before.1, input)
        }),
{
}

} // verus!
