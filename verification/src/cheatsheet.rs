//! The Hyper cheatsheet: when its overlay shows and hides, the text it shows, and the
//! checks on the model handed to the overlay helper.
use vstd::prelude::*;

use crate::config::{BindingSummary, BindingSummaryView};
use crate::text::{chars_of, is_control, is_control_exec, owned, padded, push_decimal, push_padded, push_str, str_eq, decimal_text};

verus! {

/// The most rows a model may hold.
pub const MAX_ROWS: usize = 64;

/// The most characters a model's text field may hold.
pub const MAX_TEXT_CHARS: usize = 160;

/// The most bytes of model input the helper reads.
pub const MAX_INPUT_BYTES: usize = 100000;

/// How long the overlay stays up, in milliseconds, before it is taken down.
pub const MAX_VISIBLE_MS: u64 = 30000;

/// How long, in milliseconds, the worker waits at most while an overlay process runs, so
/// that it notices the process exiting.
pub const CHILD_POLL_MS: u64 = 1000;

/// What the overlay shows, with the generation of the configuration it came from.
#[derive(Debug, PartialEq, Eq)]
pub struct CheatsheetModel {
    pub generation: u64,
    pub rows: Vec<BindingSummary>,
}

pub type ModelView = (u64, Seq<BindingSummaryView>);

pub open spec fn rows_view(rows: Seq<BindingSummary>) -> Seq<BindingSummaryView> {
    rows.map_values(|r: BindingSummary| r@)
}

impl View for CheatsheetModel {
    type V = ModelView;

    open spec fn view(&self) -> ModelView {
        (self.generation, rows_view(self.rows@))
    }
}

impl Clone for CheatsheetModel {
    fn clone(&self) -> (r: CheatsheetModel)
        ensures
            r@ == self@,
    {
        let mut rows: Vec<BindingSummary> = Vec::new();
        let mut i: usize = 0;
        while i < self.rows.len()
            invariant
                i <= self.rows.len(),
                rows@.len() == i,
                forall|k: int| 0 <= k < i ==> (#[trigger] rows@[k])@ == self.rows@[k]@,
            decreases self.rows.len() - i,
        {
            rows.push(self.rows[i].clone());
            i = i + 1;
        }
        let r = CheatsheetModel { generation: self.generation, rows };
        proof {
            assert(rows_view(r.rows@) =~= rows_view(self.rows@));
        }
        r
    }
}

/// Whether two models show the same thing.
pub fn same_model(a: &CheatsheetModel, b: &CheatsheetModel) -> (r: bool)
    ensures
        r == (a@ == b@),
{
    if a.generation != b.generation || a.rows.len() != b.rows.len() {
        proof {
            if a.rows.len() != b.rows.len() {
                assert(rows_view(a.rows@).len() != rows_view(b.rows@).len());
            }
        }
        return false;
    }
    let mut i: usize = 0;
    while i < a.rows.len()
        invariant
            a.rows.len() == b.rows.len(),
            i <= a.rows.len(),
            forall|k: int| 0 <= k < i ==> a.rows@[k]@ == b.rows@[k]@,
        decreases a.rows.len() - i,
    {
        let x = &a.rows[i];
        let y = &b.rows[i];
        if !(str_eq(x.key.as_str(), y.key.as_str()) && str_eq(x.kind.as_str(), y.kind.as_str())
            && str_eq(x.action.as_str(), y.action.as_str())) {
            proof {
                assert(rows_view(a.rows@)[i as int] != rows_view(b.rows@)[i as int]);
            }
            return false;
        }
        i = i + 1;
    }
    proof {
        assert(rows_view(a.rows@) =~= rows_view(b.rows@));
    }
    true
}

// ---------------------------------------------------------------------------
// The text
// ---------------------------------------------------------------------------

/// The widest of some texts, and at least `floor`.
pub open spec fn widest(texts: Seq<Seq<char>>, floor: nat) -> nat
    decreases texts.len(),
{
    if texts.len() == 0 {
        floor
    } else {
        let w = widest(texts.drop_last(), floor);
        if texts.last().len() > w {
            texts.last().len()
        } else {
            w
        }
    }
}

pub open spec fn row_keys(rows: Seq<BindingSummaryView>) -> Seq<Seq<char>> {
    rows.map_values(|r: BindingSummaryView| r.0)
}

pub open spec fn row_kinds(rows: Seq<BindingSummaryView>) -> Seq<Seq<char>> {
    rows.map_values(|r: BindingSummaryView| r.1)
}

/// One line per row: its key and type padded to their columns, then its action.
pub open spec fn rows_text(rows: Seq<BindingSummaryView>, key_width: nat, type_width: nat) -> Seq<char>
    decreases rows.len(),
{
    if rows.len() == 0 {
        Seq::empty()
    } else {
        let r = rows.last();
        rows_text(rows.drop_last(), key_width, type_width) + padded(r.0, key_width) + "  "@ + padded(
            r.1,
            type_width,
        ) + "  "@ + r.2 + "\n"@
    }
}

/// The overlay's text: a title, a header and one aligned line per row.
pub open spec fn render_spec(rows: Seq<BindingSummaryView>) -> Seq<char> {
    let kw = widest(row_keys(rows), 3);
    let tw = widest(row_kinds(rows), 4);
    "KIWI · HYPER\n\n"@ + padded("KEY"@, kw) + "  "@ + padded("TYPE"@, tw) + "  ACTION\n"@ + rows_text(
        rows,
        kw,
        tw,
    )
}

/// The width of the key column.
fn key_width(rows: &Vec<BindingSummary>) -> (r: usize)
    ensures
        r as nat == widest(row_keys(rows_view(rows@)), 3),
{
    let ghost keys = row_keys(rows_view(rows@));
    let mut w: usize = 3;
    let mut i: usize = 0;
    while i < rows.len()
        invariant
            i <= rows.len(),
            keys == row_keys(rows_view(rows@)),
            w as nat == widest(keys.take(i as int), 3),
        decreases rows.len() - i,
    {
        let n = chars_of(rows[i].key.as_str()).len();
        proof {
            assert(keys.take(i + 1).drop_last() =~= keys.take(i as int));
            assert(keys.take(i + 1).last() == rows@[i as int].key@);
        }
        if n > w {
            w = n;
        }
        i = i + 1;
    }
    proof {
        assert(keys.take(rows.len() as int) =~= keys);
    }
    w
}

/// The width of the type column.
fn type_width(rows: &Vec<BindingSummary>) -> (r: usize)
    ensures
        r as nat == widest(row_kinds(rows_view(rows@)), 4),
{
    let ghost kinds = row_kinds(rows_view(rows@));
    let mut w: usize = 4;
    let mut i: usize = 0;
    while i < rows.len()
        invariant
            i <= rows.len(),
            kinds == row_kinds(rows_view(rows@)),
            w as nat == widest(kinds.take(i as int), 4),
        decreases rows.len() - i,
    {
        let n = chars_of(rows[i].kind.as_str()).len();
        proof {
            assert(kinds.take(i + 1).drop_last() =~= kinds.take(i as int));
            assert(kinds.take(i + 1).last() == rows@[i as int].kind@);
        }
        if n > w {
            w = n;
        }
        i = i + 1;
    }
    proof {
        assert(kinds.take(rows.len() as int) =~= kinds);
    }
    w
}

/// The overlay's text for a model.
pub fn render_text(model: &CheatsheetModel) -> (r: String)
    ensures
        r@ == render_spec(model@.1),
{
    let ghost rows = model@.1;
    let kw = key_width(&model.rows);
    let tw = type_width(&model.rows);
    let mut out = owned("KIWI · HYPER\n\n");
    push_padded(&mut out, "KEY", kw);
    push_str(&mut out, "  ");
    push_padded(&mut out, "TYPE", tw);
    push_str(&mut out, "  ACTION\n");
    let ghost head = out@;
    let mut i: usize = 0;
    while i < model.rows.len()
        invariant
            i <= model.rows.len(),
            rows == model@.1,
            out@ == head + rows_text(rows.take(i as int), kw as nat, tw as nat),
        decreases model.rows.len() - i,
    {
        let row = &model.rows[i];
        push_padded(&mut out, row.key.as_str(), kw);
        push_str(&mut out, "  ");
        push_padded(&mut out, row.kind.as_str(), tw);
        push_str(&mut out, "  ");
        push_str(&mut out, row.action.as_str());
        push_str(&mut out, "\n");
        proof {
            assert(rows.take(i + 1).drop_last() =~= rows.take(i as int));
            assert(rows.take(i + 1).last() == row@);
            assert(out@ =~= head + rows_text(rows.take(i + 1), kw as nat, tw as nat));
        }
        i = i + 1;
    }
    proof {
        assert(rows.take(model.rows.len() as int) =~= rows);
    }
    out
}

// ---------------------------------------------------------------------------
// Checks on a model handed to the helper
// ---------------------------------------------------------------------------

/// A text field the overlay can show: at most 160 characters, none of them a control.
pub open spec fn showable(text: Seq<char>) -> bool {
    text.len() <= 160 && forall|i: int| 0 <= i < text.len() ==> !is_control(#[trigger] text[i])
}

pub open spec fn row_showable(r: BindingSummaryView) -> bool {
    showable(r.0) && showable(r.1) && showable(r.2)
}

/// Refuses input longer than the helper reads.
pub fn check_input_size(len: usize) -> (r: Result<(), String>)
    ensures
        r is Ok <==> len <= 100000,
        r matches Err(e) ==> e@ == "cheatsheet model exceeds 100000 bytes"@,
{
    if len > MAX_INPUT_BYTES {
        Err(owned("cheatsheet model exceeds 100000 bytes"))
    } else {
        Ok(())
    }
}

fn showable_exec(text: &str) -> (r: bool)
    ensures
        r == showable(text@),
{
    let v = chars_of(text);
    if v.len() > MAX_TEXT_CHARS {
        return false;
    }
    let mut i: usize = 0;
    while i < v.len()
        invariant
            v@ == text@,
            i <= v.len(),
            forall|k: int| 0 <= k < i ==> !is_control(#[trigger] v@[k]),
        decreases v.len() - i,
    {
        if is_control_exec(v[i]) {
            return false;
        }
        i = i + 1;
    }
    true
}

/// Accepts a decoded model with at most 64 rows whose every text is showable.
pub fn check_model(model: CheatsheetModel) -> (r: Result<CheatsheetModel, String>)
    ensures
        match r {
            Ok(m) => m@ == model@ && model@.1.len() <= 64 && forall|i: int|
                0 <= i < model@.1.len() ==> row_showable(#[trigger] model@.1[i]),
            Err(e) => if model@.1.len() > 64 {
                e@ == "cheatsheet model exceeds 64 rows"@
            } else {
                e@ == "cheatsheet model text exceeds 160 characters"@ && exists|i: int|
                    0 <= i < model@.1.len() && !row_showable(#[trigger] model@.1[i])
            },
        },
{
    if model.rows.len() > MAX_ROWS {
        return Err(owned("cheatsheet model exceeds 64 rows"));
    }
    let mut i: usize = 0;
    while i < model.rows.len()
        invariant
            i <= model.rows.len(),
            model.rows.len() <= 64,
            model@.1.len() == model.rows.len(),
            forall|k: int| 0 <= k < i ==> row_showable(#[trigger] model@.1[k]),
        decreases model.rows.len() - i,
    {
        let row = &model.rows[i];
        proof {
            assert(model@.1[i as int] == row@);
        }
        if !(showable_exec(row.key.as_str()) && showable_exec(row.kind.as_str()) && showable_exec(
            row.action.as_str(),
        )) {
            proof {
                assert(!row_showable(model@.1[i as int]));
            }
            return Err(owned("cheatsheet model text exceeds 160 characters"));
        }
        i = i + 1;
    }
    Ok(model)
}

// ---------------------------------------------------------------------------
// When the overlay shows
// ---------------------------------------------------------------------------

/// What the worker does after a step.
#[derive(Clone, Copy, Debug, PartialEq, Eq, Structural)]
pub enum WorkerEffect {
    /// Nothing.
    Nothing,
    /// Wait for the new deadline.
    Schedule,
    /// Start the overlay.
    Spawn,
    /// Take the overlay down.
    Stop,
}

enum WorkerPhase {
    Idle,
    Pending { deadline: u64, model: CheatsheetModel },
    Spawning { model: CheatsheetModel },
    Visible { model: CheatsheetModel, expires_at: u64 },
    BlockedUntilHide,
}

/// Where the overlay is, as a value; times are milliseconds from the worker's start.
pub enum PhaseView {
    /// Nothing to show.
    Idle,
    /// Showing once the deadline passes.
    Pending { deadline: u64, model: ModelView },
    /// The overlay is being started.
    Spawning { model: ModelView },
    /// The overlay is up until it expires.
    Visible { model: ModelView, expires_at: u64 },
    /// The overlay went down on its own; nothing shows until Hyper is released.
    Blocked,
}

/// Hyper went down: show `model` after `delay_ms`, unless it already shows or waits.
pub open spec fn show_step(p: PhaseView, now: u64, delay_ms: u64, model: ModelView) -> (PhaseView, WorkerEffect) {
    let pending = PhaseView::Pending { deadline: (now + delay_ms) as u64, model };
    match p {
        PhaseView::Idle => (pending, WorkerEffect::Schedule),
        PhaseView::Pending { model: current, .. } => if current == model {
            (p, WorkerEffect::Nothing)
        } else {
            (pending, WorkerEffect::Schedule)
        },
        PhaseView::Spawning { model: current } => if current == model {
            (p, WorkerEffect::Nothing)
        } else {
            (pending, WorkerEffect::Stop)
        },
        PhaseView::Visible { model: current, .. } => if current == model {
            (p, WorkerEffect::Nothing)
        } else {
            (pending, WorkerEffect::Stop)
        },
        PhaseView::Blocked => (p, WorkerEffect::Nothing),
    }
}

/// Hyper went up: nothing shows any more; a visible overlay is taken down.
pub open spec fn hide_step(p: PhaseView) -> (PhaseView, WorkerEffect) {
    match p {
        PhaseView::Visible { .. } => (PhaseView::Idle, WorkerEffect::Stop),
        _ => (PhaseView::Idle, WorkerEffect::Nothing),
    }
}

/// Time passed: a due pending overlay starts; an expired visible one goes down and stays
/// down until Hyper is released.
pub open spec fn deadline_step(p: PhaseView, now: u64) -> (PhaseView, WorkerEffect) {
    match p {
        PhaseView::Pending { deadline, model } => if now >= deadline {
            (PhaseView::Spawning { model }, WorkerEffect::Spawn)
        } else {
            (p, WorkerEffect::Nothing)
        },
        PhaseView::Visible { expires_at, .. } => if now >= expires_at {
            (PhaseView::Blocked, WorkerEffect::Stop)
        } else {
            (p, WorkerEffect::Nothing)
        },
        _ => (p, WorkerEffect::Nothing),
    }
}

/// The overlay started: it is up for 30 seconds.
pub open spec fn spawn_succeeded_step(p: PhaseView, now: u64) -> PhaseView {
    match p {
        PhaseView::Spawning { model } => PhaseView::Visible { model, expires_at: (now + 30000) as u64 },
        _ => PhaseView::Idle,
    }
}

/// The overlay failed to start: nothing shows, and the next show tries again.
pub open spec fn spawn_failed_step(p: PhaseView) -> PhaseView {
    match p {
        PhaseView::Spawning { .. } => PhaseView::Idle,
        _ => p,
    }
}

/// The overlay exited on its own: nothing shows until Hyper is released.
pub open spec fn child_exited_step(p: PhaseView) -> PhaseView {
    match p {
        PhaseView::Visible { .. } => PhaseView::Blocked,
        _ => p,
    }
}

/// When the worker must next look at the time.
/// When the worker must next wake: the next deadline, but no later than
/// `CHILD_POLL_MS` from `now` while an overlay process runs.
pub open spec fn wake_spec(p: PhaseView, now: u64, child_running: bool) -> Option<u64> {
    match next_deadline_spec(p) {
        Some(d) => Some(
            if child_running && now + CHILD_POLL_MS < d {
                (now + CHILD_POLL_MS) as u64
            } else {
                d
            },
        ),
        None => None,
    }
}

pub open spec fn next_deadline_spec(p: PhaseView) -> Option<u64> {
    match p {
        PhaseView::Pending { deadline, .. } => Some(deadline),
        PhaseView::Visible { expires_at, .. } => Some(expires_at),
        _ => None,
    }
}

/// When the overlay shows and hides.
pub struct WorkerState {
    phase: WorkerPhase,
}

impl WorkerState {
    pub closed spec fn phase(&self) -> PhaseView {
        match self.phase {
            WorkerPhase::Idle => PhaseView::Idle,
            WorkerPhase::Pending { deadline, model } => PhaseView::Pending { deadline, model: model@ },
            WorkerPhase::Spawning { model } => PhaseView::Spawning { model: model@ },
            WorkerPhase::Visible { model, expires_at } => PhaseView::Visible { model: model@, expires_at },
            WorkerPhase::BlockedUntilHide => PhaseView::Blocked,
        }
    }

    /// Nothing to show.
    pub fn new() -> (r: WorkerState)
        ensures
            r.phase() == PhaseView::Idle,
    {
        WorkerState { phase: WorkerPhase::Idle }
    }

    /// Hyper went down at `now`: show `model` after `delay_ms`.
    pub fn show(&mut self, now: u64, delay_ms: u64, model: CheatsheetModel) -> (r: WorkerEffect)
        requires
            now + delay_ms <= u64::MAX,
        ensures
            (final(self).phase(), r) == show_step(old(self).phase(), now, delay_ms, model@),
    {
        let deadline = now + delay_ms;
        let same = match &self.phase {
            WorkerPhase::Idle => false,
            WorkerPhase::Pending { model: current, .. } => same_model(current, &model),
            WorkerPhase::Spawning { model: current } => same_model(current, &model),
            WorkerPhase::Visible { model: current, .. } => same_model(current, &model),
            WorkerPhase::BlockedUntilHide => true,
        };
        if same {
            return WorkerEffect::Nothing;
        }
        let effect = match &self.phase {
            WorkerPhase::Spawning { .. } => WorkerEffect::Stop,
            WorkerPhase::Visible { .. } => WorkerEffect::Stop,
            _ => WorkerEffect::Schedule,
        };
        self.phase = WorkerPhase::Pending { deadline, model };
        effect
    }

    /// A show command at `now`: the `show` step, then, when there is no delay, the deadline
    /// step at once; the second effect is that step's, or `Nothing` when there is a delay.
    pub fn show_command(&mut self, now: u64, delay_ms: u64, model: CheatsheetModel) -> (r: (
        WorkerEffect,
        WorkerEffect,
    ))
        requires
            now + delay_ms <= u64::MAX,
        ensures
            ({
                let shown = show_step(old(self).phase(), now, delay_ms, model@);
                &&& r.0 == shown.1
                &&& delay_ms == 0 ==> (final(self).phase(), r.1) == deadline_step(shown.0, now)
                &&& delay_ms != 0 ==> final(self).phase() == shown.0 && r.1 == WorkerEffect::Nothing
            }),
    {
        let first = self.show(now, delay_ms, model);
        if delay_ms == 0 {
            let second = self.deadline_elapsed(now);
            (first, second)
        } else {
            (first, WorkerEffect::Nothing)
        }
    }

    /// When the worker must next wake, given whether an overlay process runs.
    pub fn wake_at(&self, now: u64, child_running: bool) -> (r: Option<u64>)
        ensures
            r == wake_spec(self.phase(), now, child_running),
    {
        match self.next_deadline() {
            Some(d) => {
                if child_running && now < d && d - now > CHILD_POLL_MS {
                    Some(now + CHILD_POLL_MS)
                } else {
                    Some(d)
                }
            },
            None => None,
        }
    }

    /// Hyper went up.
    pub fn hide_overlay(&mut self) -> (r: WorkerEffect)
        ensures
            (final(self).phase(), r) == hide_step(old(self).phase()),
    {
        let effect = match &self.phase {
            WorkerPhase::Visible { .. } => WorkerEffect::Stop,
            _ => WorkerEffect::Nothing,
        };
        self.phase = WorkerPhase::Idle;
        effect
    }

    /// Time passed to `now`.
    pub fn deadline_elapsed(&mut self, now: u64) -> (r: WorkerEffect)
        ensures
            (final(self).phase(), r) == deadline_step(old(self).phase(), now),
    {
        let due = match &self.phase {
            WorkerPhase::Pending { deadline, .. } => now >= *deadline,
            WorkerPhase::Visible { expires_at, .. } => now >= *expires_at,
            _ => false,
        };
        if !due {
            return WorkerEffect::Nothing;
        }
        let mut phase = WorkerPhase::Idle;
        std::mem::swap(&mut phase, &mut self.phase);
        match phase {
            WorkerPhase::Pending { model, .. } => {
                self.phase = WorkerPhase::Spawning { model };
                WorkerEffect::Spawn
            },
            _ => {
                self.phase = WorkerPhase::BlockedUntilHide;
                WorkerEffect::Stop
            },
        }
    }

    /// The overlay started at `now`.
    pub fn spawn_succeeded(&mut self, now: u64)
        requires
            now + 30000 <= u64::MAX,
        ensures
            final(self).phase() == spawn_succeeded_step(old(self).phase(), now),
    {
        let mut phase = WorkerPhase::Idle;
        std::mem::swap(&mut phase, &mut self.phase);
        if let WorkerPhase::Spawning { model } = phase {
            self.phase = WorkerPhase::Visible { model, expires_at: now + MAX_VISIBLE_MS };
        }
    }

    /// The overlay failed to start.
    pub fn spawn_failed(&mut self)
        ensures
            final(self).phase() == spawn_failed_step(old(self).phase()),
    {
        if let WorkerPhase::Spawning { .. } = &self.phase {
            self.phase = WorkerPhase::Idle;
        }
    }

    /// The overlay exited on its own.
    pub fn child_exited(&mut self)
        ensures
            final(self).phase() == child_exited_step(old(self).phase()),
    {
        if let WorkerPhase::Visible { .. } = &self.phase {
            self.phase = WorkerPhase::BlockedUntilHide;
        }
    }

    /// When the worker must next look at the time.
    pub fn next_deadline(&self) -> (r: Option<u64>)
        ensures
            r == next_deadline_spec(self.phase()),
    {
        match &self.phase {
            WorkerPhase::Pending { deadline, .. } => Some(*deadline),
            WorkerPhase::Visible { expires_at, .. } => Some(*expires_at),
            _ => None,
        }
    }

    /// The model being started, if any.
    pub fn spawning_model(&self) -> (r: Option<&CheatsheetModel>)
        ensures
            match r {
                Some(m) => self.phase() == (PhaseView::Spawning { model: m@ }),
                None => !(self.phase() is Spawning),
            },
    {
        match &self.phase {
            WorkerPhase::Spawning { model } => Some(model),
            _ => None,
        }
    }
}


// ---------------------------------------------------------------------------
// Laws
// ---------------------------------------------------------------------------

/// Releasing Hyper cancels whatever waits: after a hide, no deadline starts an overlay,
/// and a visible overlay is taken down by the hide itself.
pub proof fn lemma_hide_cancels(p: PhaseView, now: u64)
    ensures
        hide_step(p).0 == PhaseView::Idle,
        deadline_step(hide_step(p).0, now).1 == WorkerEffect::Nothing,
        p is Visible <==> hide_step(p).1 == WorkerEffect::Stop,
{
}

/// The overlay starts only once a pending display is due, and only for the pending model.
pub proof fn lemma_spawn_only_when_due(p: PhaseView, now: u64)
    ensures
        deadline_step(p, now).1 == WorkerEffect::Spawn <==> (p matches PhaseView::Pending { deadline, .. }
            && now >= deadline),
        deadline_step(p, now).1 == WorkerEffect::Spawn ==> (p matches PhaseView::Pending { model, .. }
            && deadline_step(p, now).0 == (PhaseView::Spawning { model })),
{
}

/// Holding Hyper shows one overlay: showing the same model again changes nothing.
pub proof fn lemma_same_model_is_shown_once(p: PhaseView, now: u64, delay_ms: u64, later: u64, model: ModelView)
    requires
        now + delay_ms <= u64::MAX,
        later + delay_ms <= u64::MAX,
    ensures
        ({
            let first = show_step(p, now, delay_ms, model);
            show_step(first.0, later, delay_ms, model) == (first.0, WorkerEffect::Nothing)
        }),
{
}

/// A visible overlay goes down after 30 seconds and stays down while Hyper is held; once
/// Hyper is released, the next press shows it again.
pub proof fn lemma_overlay_expires_until_release(model: ModelView, shown: u64, now: u64, delay_ms: u64)
    requires
        shown + 30000 <= u64::MAX,
        now >= shown + 30000,
        now + delay_ms <= u64::MAX,
    ensures
        ({
            let visible = spawn_succeeded_step(PhaseView::Spawning { model }, shown);
            let expired = deadline_step(visible, now);
            &&& expired == (PhaseView::Blocked, WorkerEffect::Stop)
            &&& show_step(expired.0, now, delay_ms, model) == (PhaseView::Blocked, WorkerEffect::Nothing)
            &&& show_step(hide_step(expired.0).0, now, delay_ms, model).1 == WorkerEffect::Schedule
        }),
{
}

} // verus!
