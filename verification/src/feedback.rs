//! What an action's outcome is reported as: the notification text and the
//! command that posts it.
use vstd::prelude::*;

use crate::config::{Action, ActionView, FeedbackPolicy, action_kind, action_value};
use crate::key::{Chord, ChordView, chord_text};
use crate::text::{chars_of, lines, lines_of, owned, push_char, push_str, string_of, texts, trim, trim_chars};

verus! {

/// The AppleScript that posts a notification; the title and body come after `--`, so
/// nothing in them is read as script.
pub const NOTIFICATION_SCRIPT: &'static str = "on run argv
    set notificationTitle to item 1 of argv
    set notificationBody to item 2 of argv
    display notification notificationBody with title notificationTitle
end run";

/// The longest notification title, in characters.
pub const MAX_TITLE_CHARS: usize = 80;

/// The longest notification body, in characters.
pub const MAX_BODY_CHARS: usize = 240;

/// The longest failure detail a notification shows, in characters.
pub const MAX_DETAIL_CHARS: usize = 80;

/// An action to run, with the chord that asked for it and the feedback policy in force
/// when it was asked for.
#[derive(Debug, PartialEq, Eq)]
pub struct ActionJob {
    pub chord: Chord,
    pub action: Action,
    pub feedback: FeedbackPolicy,
}

pub type ActionJobView = (ChordView, ActionView, FeedbackPolicy);

impl View for ActionJob {
    type V = ActionJobView;

    open spec fn view(&self) -> ActionJobView {
        (self.chord@, self.action@, self.feedback)
    }
}

impl Clone for ActionJob {
    fn clone(&self) -> (r: ActionJob)
        ensures
            r@ == self@,
    {
        ActionJob { chord: self.chord.clone(), action: self.action.clone(), feedback: self.feedback }
    }
}

/// A desktop notification.
#[derive(Debug, PartialEq, Eq)]
pub struct Notification {
    pub title: String,
    pub body: String,
}

pub type NotificationView = (Seq<char>, Seq<char>);

impl View for Notification {
    type V = NotificationView;

    open spec fn view(&self) -> NotificationView {
        (self.title@, self.body@)
    }
}

impl Clone for Notification {
    fn clone(&self) -> (r: Notification)
        ensures
            r@ == self@,
    {
        Notification { title: self.title.clone(), body: self.body.clone() }
    }
}

/// What finishing an action leaves: the full failure, if it failed, and the notification
/// to post, if any.
#[derive(Debug, PartialEq, Eq)]
pub struct ActionCompletion {
    pub failure: Option<String>,
    pub notification: Option<Notification>,
}

/// A program and its arguments.
#[derive(Debug, PartialEq, Eq)]
pub struct NotificationCommand {
    pub program: &'static str,
    pub args: Vec<String>,
}

// ---------------------------------------------------------------------------
// The text
// ---------------------------------------------------------------------------

/// At most `max` characters: a longer text keeps `max - 1` of them and ends in `…`.
pub open spec fn truncated(value: Seq<char>, max: nat) -> Seq<char> {
    if value.len() <= max {
        value
    } else {
        value.take(if max == 0 { 0int } else { max - 1 }).push('…')
    }
}

/// The first line that is not blank, trimmed.
pub open spec fn first_meaningful(ls: Seq<Seq<char>>) -> Option<Seq<char>>
    decreases ls.len(),
{
    if ls.len() == 0 {
        None
    } else if trim(ls[0]).len() > 0 {
        Some(trim(ls[0]))
    } else {
        first_meaningful(ls.drop_first())
    }
}

/// The part of a failure a notification shows: its first meaningful line.
pub open spec fn failure_detail(error: Seq<char>) -> Seq<char> {
    match first_meaningful(lines(error)) {
        Some(line) => line,
        None => "action failed"@,
    }
}

/// Which chord ran which action: `chord · type: value`.
pub open spec fn job_context(job: ActionJobView) -> Seq<char> {
    chord_text(job.0) + " · "@ + action_kind(job.1) + ": "@ + action_value(job.1)
}

/// Whether an outcome is reported under a policy; `failed` tells a failure from a success.
pub open spec fn should_notify(policy: FeedbackPolicy, failed: bool) -> bool {
    match policy {
        FeedbackPolicy::Off => false,
        FeedbackPolicy::Errors => failed,
        FeedbackPolicy::All => true,
    }
}

/// The body of a failure notification: the context, shortened to leave room, a line
/// break and the shortened detail.
pub open spec fn failure_body(context: Seq<char>, error: Seq<char>) -> Seq<char> {
    let detail = truncated(failure_detail(error), 80);
    let limit: nat = if detail.len() + 1 <= 240 { (240 - (detail.len() + 1)) as nat } else { 0 };
    truncated(context, limit) + "\n"@ + detail
}

/// The notification an outcome gives under the job's policy, where `outcome` is `None` for
/// a success and the failure text otherwise.
pub open spec fn notification_spec(job: ActionJobView, outcome: Option<Seq<char>>) -> Option<
    NotificationView,
> {
    if !should_notify(job.2, outcome is Some) {
        None
    } else {
        let title = if outcome is Some {
            "Kiwi action failed"@
        } else {
            "Kiwi action completed"@
        };
        let body = match outcome {
            Some(e) => failure_body(job_context(job), e),
            None => truncated(job_context(job), 240),
        };
        Some((truncated(title, 80), body))
    }
}

pub open spec fn outcome_text(outcome: Result<(), &str>) -> Option<Seq<char>> {
    match outcome {
        Ok(()) => None,
        Err(e) => Some(e@),
    }
}

pub open spec fn notification_option_view(n: Option<Notification>) -> Option<NotificationView> {
    match n {
        Some(x) => Some(x@),
        None => None,
    }
}

pub proof fn lemma_truncated_len(value: Seq<char>, max: nat)
    requires
        max >= 1,
    ensures
        truncated(value, max).len() <= max,
{
}

proof fn lemma_first_meaningful_skip(ls: Seq<Seq<char>>, i: int)
    requires
        0 <= i <= ls.len(),
        forall|j: int| 0 <= j < i ==> trim(#[trigger] ls[j]).len() == 0,
    ensures
        first_meaningful(ls) == first_meaningful(ls.skip(i)),
    decreases i,
{
    if i == 0 {
        assert(ls.skip(0) =~= ls);
    } else {
        let rest = ls.drop_first();
        assert(trim(ls[0]).len() == 0);
        assert forall|j: int| 0 <= j < i - 1 implies trim(#[trigger] rest[j]).len() == 0 by {
            assert(rest[j] == ls[j + 1]);
        }
        lemma_first_meaningful_skip(rest, i - 1);
        assert(rest.skip(i - 1) =~= ls.skip(i));
    }
}

/// A notification is posted exactly when the policy reports the outcome: never under `Off`,
/// for failures only under `Errors`, always under `All`. Its title has at most 80 characters
/// and its body at most 240, and a failure's body ends with the failure's shortened first
/// meaningful line.
pub proof fn lemma_notification_policy_and_bounds(job: ActionJobView, outcome: Option<Seq<char>>)
    ensures
        notification_spec(job, outcome) is Some <==> should_notify(job.2, outcome is Some),
        notification_spec(job, outcome) matches Some(n) ==> {
            &&& n.0.len() <= 80
            &&& n.1.len() <= 240
            &&& outcome matches Some(e) ==> {
                let d = truncated(failure_detail(e), 80);
                n.1.subrange(n.1.len() - d.len(), n.1.len() as int) == d
            }
        },
{
    reveal_strlit("Kiwi action failed");
    reveal_strlit("Kiwi action completed");
    reveal_strlit("\n");
    if let Some(e) = outcome {
        let d = truncated(failure_detail(e), 80);
        lemma_truncated_len(failure_detail(e), 80);
        let limit: nat = (240 - (d.len() + 1)) as nat;
        lemma_truncated_len(job_context(job), limit);
        let body = failure_body(job_context(job), e);
        assert(body.subrange(body.len() - d.len(), body.len() as int) =~= d);
    } else {
        lemma_truncated_len(job_context(job), 240);
    }
}

/// `value` cut to at most `max_chars` characters, ending in `…` when it was cut.
pub fn truncate(value: &str, max_chars: usize) -> (r: String)
    ensures
        r@ == truncated(value@, max_chars as nat),
{
    let v = chars_of(value);
    if v.len() <= max_chars {
        return owned(value);
    }
    let keep: usize = if max_chars == 0 { 0 } else { max_chars - 1 };
    let mut out = String::new();
    let mut i: usize = 0;
    while i < keep
        invariant
            keep < v.len(),
            v@ == value@,
            i <= keep,
            out@ == value@.take(i as int),
        decreases keep - i,
    {
        push_char(&mut out, v[i]);
        i = i + 1;
        proof {
            assert(out@ =~= value@.take(i as int));
        }
    }
    push_char(&mut out, '…');
    out
}

/// The first meaningful line of a failure, or `action failed` when it has none.
fn failure_detail_text(error: &str) -> (r: String)
    ensures
        r@ == failure_detail(error@),
{
    let chars = chars_of(error);
    let ls = lines_of(chars.as_slice());
    let ghost all = texts(ls@);
    let mut i: usize = 0;
    while i < ls.len()
        invariant
            i <= ls.len(),
            all == texts(ls@),
            all == lines(error@),
            forall|j: int| 0 <= j < i ==> trim(#[trigger] all[j]).len() == 0,
        decreases ls.len() - i,
    {
        let line = trim_chars(ls[i].as_slice());
        proof {
            assert(all[i as int] == ls@[i as int]@);
        }
        if line.len() > 0 {
            proof {
                lemma_first_meaningful_skip(all, i as int);
                assert(all.skip(i as int)[0] == all[i as int]);
            }
            return string_of(line.as_slice());
        }
        i = i + 1;
    }
    proof {
        lemma_first_meaningful_skip(all, i as int);
        assert(all.skip(i as int).len() == 0);
    }
    owned("action failed")
}

/// `chord · type: value` for a job.
fn context_text(job: &ActionJob) -> (r: String)
    ensures
        r@ == job_context(job@),
{
    let mut context = job.chord.to_string();
    push_str(&mut context, " · ");
    let (kind, value) = job.action.type_and_value();
    push_str(&mut context, kind);
    push_str(&mut context, ": ");
    push_str(&mut context, value.as_str());
    context
}

/// The notification an outcome gives under the job's feedback policy: none when the
/// policy does not report it; otherwise a title saying whether the action failed and a
/// bounded body naming the chord and action, followed, on failure, by the failure's first
/// meaningful line.
pub fn notification_for(job: &ActionJob, outcome: Result<(), &str>) -> (r: Option<Notification>)
    ensures
        notification_option_view(r) == notification_spec(job@, outcome_text(outcome)),
{
    let failed = outcome.is_err();
    let notify = match job.feedback {
        FeedbackPolicy::Off => false,
        FeedbackPolicy::Errors => failed,
        FeedbackPolicy::All => true,
    };
    if !notify {
        return None;
    }
    let title = if failed {
        "Kiwi action failed"
    } else {
        "Kiwi action completed"
    };
    let context = context_text(job);
    let body = match outcome {
        Err(error) => {
            let full = failure_detail_text(error);
            let detail = truncate(full.as_str(), MAX_DETAIL_CHARS);
            let detail_len = chars_of(detail.as_str()).len();
            proof {
                lemma_truncated_len(failure_detail(error@), 80);
            }
            let limit: usize = MAX_BODY_CHARS - (detail_len + 1);
            let mut body = truncate(context.as_str(), limit);
            push_char(&mut body, '\n');
            push_str(&mut body, detail.as_str());
            proof {
                let d = truncated(failure_detail(error@), 80);
                reveal_strlit("\n");
                assert(detail@ == d);
                assert(detail_len == d.len());
                assert(limit as nat == (240 - (d.len() + 1)) as nat);
                assert(body@ =~= truncated(context@, limit as nat) + "\n"@ + d);
            }
            body
        },
        Ok(()) => truncate(context.as_str(), MAX_BODY_CHARS),
    };
    Some(Notification { title: truncate(title, MAX_TITLE_CHARS), body })
}

/// What finishing a job leaves: the failure text as it is, and the notification the
/// outcome gives, where `outcome` is the action's result with its failure already written
/// out in full.
pub fn action_completion(job: &ActionJob, outcome: Result<(), String>) -> (r: ActionCompletion)
    ensures
        match outcome {
            Ok(()) => r.failure is None && notification_option_view(r.notification)
                == notification_spec(job@, None),
            Err(e) => r.failure matches Some(f) && f@ == e@ && notification_option_view(
                r.notification,
            ) == notification_spec(job@, Some(e@)),
        },
{
    match outcome {
        Ok(()) => ActionCompletion { failure: None, notification: notification_for(job, Ok(())) },
        Err(error) => {
            let notification = notification_for(job, Err(error.as_str()));
            ActionCompletion { failure: Some(error), notification }
        },
    }
}

/// The command that posts a notification: `osascript` runs the fixed script, and the
/// title and body follow `--` as separate arguments.
pub fn notification_command(notification: &Notification) -> (r: NotificationCommand)
    ensures
        r.program@ == "/usr/bin/osascript"@,
        r.args@.len() == 5,
        r.args@[0]@ == "-e"@,
        r.args@[1]@ == NOTIFICATION_SCRIPT@,
        r.args@[2]@ == "--"@,
        r.args@[3]@ == notification.title@,
        r.args@[4]@ == notification.body@,
{
    let mut args: Vec<String> = Vec::new();
    args.push(owned("-e"));
    args.push(owned(NOTIFICATION_SCRIPT));
    args.push(owned("--"));
    args.push(notification.title.clone());
    args.push(notification.body.clone());
    NotificationCommand { program: "/usr/bin/osascript", args }
}

} // verus!
