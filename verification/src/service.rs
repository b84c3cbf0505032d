//! The LaunchAgent that runs the daemon: reading its state, the status line, the code
//! signature checks, the service calls, and the table of configured shortcuts.
use vstd::prelude::*;

use crate::cheatsheet::widest;
use crate::config::{ActionView, Bindings, action_kind, action_value};
use crate::key::{parse_unsigned, parse_unsigned_chars};
use crate::launchd::LABEL;
use crate::listener::{paint, painted};
use crate::text::{
    chars_of, contains, contains_text, decimal_text, find_char, first_index, last_index, lines,
    lines_of, owned, padded, push_chars, push_decimal, push_padded, push_str, rfind_char,
    slice_chars, split, split_chars, starts_with, starts_with_text, string_of, texts, trim, trim_chars,
};

verus! {

/// Where the LaunchAgent stands.
#[derive(Clone, Copy, Debug, PartialEq, Eq)]
pub enum LaunchAgentState {
    /// Not installed.
    Missing,
    /// Running, with its process id when launchd reports one.
    Running { pid: Option<u32> },
    /// Installed but not running.
    NotRunning,
}

// ---------------------------------------------------------------------------
// The LaunchAgent's state
// ---------------------------------------------------------------------------

pub open spec fn is_running_line(line: Seq<char>) -> bool {
    trim(line) == "state = running"@
}

/// The process id a `pid = N` line gives.
pub open spec fn pid_of_line(line: Seq<char>) -> Option<nat> {
    let t = trim(line);
    if starts_with(t, "pid = "@) {
        parse_unsigned(t.skip(6), 4294967295)
    } else {
        None
    }
}

/// The first process id the lines give.
pub open spec fn first_pid(ls: Seq<Seq<char>>) -> Option<nat>
    decreases ls.len(),
{
    if ls.len() == 0 {
        None
    } else {
        match pid_of_line(ls[0]) {
            Some(p) => Some(p),
            None => first_pid(ls.drop_first()),
        }
    }
}

/// The state `launchctl print` describes: running, with the first process id it reports,
/// when a line reads `state = running`; otherwise not running.
pub open spec fn agent_state_spec(output: Seq<char>) -> LaunchAgentState {
    let ls = lines(output);
    if exists|i: int| 0 <= i < ls.len() && is_running_line(#[trigger] ls[i]) {
        LaunchAgentState::Running {
            pid: match first_pid(ls) {
                Some(p) => Some(p as u32),
                None => None,
            },
        }
    } else {
        LaunchAgentState::NotRunning
    }
}

proof fn lemma_first_pid_skip(ls: Seq<Seq<char>>, i: int)
    requires
        0 <= i <= ls.len(),
        forall|j: int| 0 <= j < i ==> pid_of_line(#[trigger] ls[j]) is None,
    ensures
        first_pid(ls) == first_pid(ls.skip(i)),
    decreases i,
{
    if i == 0 {
        assert(ls.skip(0) =~= ls);
    } else {
        let rest = ls.drop_first();
        assert(pid_of_line(ls[0]) is None);
        assert forall|j: int| 0 <= j < i - 1 implies pid_of_line(#[trigger] rest[j]) is None by {
            assert(rest[j] == ls[j + 1]);
        }
        lemma_first_pid_skip(rest, i - 1);
        assert(rest.skip(i - 1) =~= ls.skip(i));
    }
}

fn pid_of_line_exec(line: &[char]) -> (r: Option<u32>)
    ensures
        match r {
            Some(p) => pid_of_line(line@) == Some(p as nat),
            None => pid_of_line(line@) is None,
        },
{
    let t = trim_chars(line);
    if !starts_with_text(t.as_slice(), "pid = ") {
        return None;
    }
    proof {
        reveal_strlit("pid = ");
    }
    let rest = slice_chars(t.as_slice(), 6, t.len());
    proof {
        assert(rest@ =~= t@.skip(6));
    }
    match parse_unsigned_chars(rest.as_slice(), 4294967295) {
        Some(v) => Some(v as u32),
        None => None,
    }
}

/// Whether some line reads `state = running`.
fn any_running_line(ls: &Vec<Vec<char>>) -> (r: bool)
    ensures
        r == exists|i: int| 0 <= i < ls@.len() && is_running_line(#[trigger] texts(ls@)[i]),
{
    let ghost all = texts(ls@);
    let want = chars_of("state = running");
    let mut i: usize = 0;
    while i < ls.len()
        invariant
            i <= ls.len(),
            all == texts(ls@),
            want@ == "state = running"@,
            forall|j: int| 0 <= j < i ==> !is_running_line(#[trigger] all[j]),
        decreases ls.len() - i,
    {
        let t = trim_chars(ls[i].as_slice());
        proof {
            assert(all[i as int] == ls@[i as int]@);
        }
        if crate::text::chars_eq(t.as_slice(), want.as_slice()) {
            proof {
                assert(is_running_line(all[i as int]));
            }
            return true;
        }
        i = i + 1;
    }
    false
}

/// Reads the state `launchctl print` reports.
pub fn launch_agent_state(output: &str) -> (r: LaunchAgentState)
    ensures
        r == agent_state_spec(output@),
{
    let chars = chars_of(output);
    let ls = lines_of(chars.as_slice());
    let ghost all = texts(ls@);
    if !any_running_line(&ls) {
        return LaunchAgentState::NotRunning;
    }
    let mut k: usize = 0;
    while k < ls.len()
        invariant
            k <= ls.len(),
            all == texts(ls@),
            all == lines(output@),
            exists|i: int| 0 <= i < ls@.len() && is_running_line(#[trigger] texts(ls@)[i]),
            forall|j: int| 0 <= j < k ==> pid_of_line(#[trigger] all[j]) is None,
        decreases ls.len() - k,
    {
        proof {
            assert(all[k as int] == ls@[k as int]@);
        }
        if let Some(pid) = pid_of_line_exec(ls[k].as_slice()) {
            proof {
                lemma_first_pid_skip(all, k as int);
                assert(all.skip(k as int)[0] == all[k as int]);
            }
            return LaunchAgentState::Running { pid: Some(pid) };
        }
        k = k + 1;
    }
    proof {
        lemma_first_pid_skip(all, k as int);
        assert(all.skip(k as int).len() == 0);
    }
    LaunchAgentState::Running { pid: None }
}

/// The state of a LaunchAgent launchd does not know: stopped when its plist remains,
/// missing otherwise.
pub fn unloaded_launch_agent_state(plist_exists: bool) -> (r: LaunchAgentState)
    ensures
        r == (if plist_exists {
            LaunchAgentState::NotRunning
        } else {
            LaunchAgentState::Missing
        }),
{
    if plist_exists {
        LaunchAgentState::NotRunning
    } else {
        LaunchAgentState::Missing
    }
}

// ---------------------------------------------------------------------------
// Elapsed time
// ---------------------------------------------------------------------------

/// Each `:`-separated part read as a `u64`, when all of them read.
pub open spec fn clock_parts(clock: Seq<char>) -> Option<Seq<nat>> {
    let ps = split(clock, ':');
    if forall|i: int| 0 <= i < ps.len() ==> (#[trigger] parse_unsigned(ps[i], 18446744073709551615)) is Some {
        Some(ps.map_values(|p: Seq<char>| parse_unsigned(p, 18446744073709551615)->0))
    } else {
        None
    }
}

/// The two largest units of an elapsed time that are not zero, or the seconds.
pub open spec fn elapsed_text(d: nat, h: nat, m: nat, s: nat) -> Seq<char> {
    if d > 0 {
        if h > 0 {
            decimal_text(d) + "d "@ + decimal_text(h) + "h"@
        } else {
            decimal_text(d) + "d"@
        }
    } else if h > 0 {
        if m > 0 {
            decimal_text(h) + "h "@ + decimal_text(m) + "m"@
        } else {
            decimal_text(h) + "h"@
        }
    } else if m > 0 {
        decimal_text(m) + "m "@ + decimal_text(s) + "s"@
    } else {
        decimal_text(s) + "s"@
    }
}

/// The compact text for days and clock parts, when there are two or three parts.
pub open spec fn from_parts(d: nat, parts: Option<Seq<nat>>) -> Option<Seq<char>> {
    match parts {
        None => None,
        Some(ps) => if ps.len() == 2 {
            Some(elapsed_text(d, 0, ps[0], ps[1]))
        } else if ps.len() == 3 {
            Some(elapsed_text(d, ps[0], ps[1], ps[2]))
        } else {
            None
        },
    }
}

/// `ps -o etime=` output, `[[dd-]hh:]mm:ss`, written compactly; `None` when it does not
/// read.
pub open spec fn format_elapsed_spec(elapsed: Seq<char>) -> Option<Seq<char>> {
    let e = trim(elapsed);
    let (days, clock) = match first_index(e, '-') {
        Some(i) => (parse_unsigned(e.take(i), 18446744073709551615), e.skip(i + 1)),
        None => (Some(0nat), e),
    };
    match days {
        None => None,
        Some(d) => match clock_parts(clock) {
            None => None,
            Some(ps) => if ps.len() == 2 {
                Some(elapsed_text(d, 0, ps[0], ps[1]))
            } else if ps.len() == 3 {
                Some(elapsed_text(d, ps[0], ps[1], ps[2]))
            } else {
                None
            },
        },
    }
}

fn elapsed_text_exec(d: u64, h: u64, m: u64, s: u64) -> (r: String)
    ensures
        r@ == elapsed_text(d as nat, h as nat, m as nat, s as nat),
{
    let mut out = String::new();
    if d > 0 {
        push_decimal(&mut out, d);
        if h > 0 {
            push_str(&mut out, "d ");
            push_decimal(&mut out, h);
            push_str(&mut out, "h");
        } else {
            push_str(&mut out, "d");
        }
    } else if h > 0 {
        push_decimal(&mut out, h);
        if m > 0 {
            push_str(&mut out, "h ");
            push_decimal(&mut out, m);
            push_str(&mut out, "m");
        } else {
            push_str(&mut out, "h");
        }
    } else if m > 0 {
        push_decimal(&mut out, m);
        push_str(&mut out, "m ");
        push_decimal(&mut out, s);
        push_str(&mut out, "s");
    } else {
        push_decimal(&mut out, s);
        push_str(&mut out, "s");
    }
    proof {
        assert(out@ =~= elapsed_text(d as nat, h as nat, m as nat, s as nat));
    }
    out
}

/// Writes `ps` elapsed time compactly: `05:57` is `5m 57s`, `02:05:07` is `2h 5m`,
/// `3-06:02:01` is `3d 6h`.
pub fn format_elapsed_time(elapsed: &str) -> (r: Option<String>)
    ensures
        match r {
            Some(t) => format_elapsed_spec(elapsed@) == Some(t@),
            None => format_elapsed_spec(elapsed@) is None,
        },
{
    let e = trim_chars(chars_of(elapsed).as_slice());
    let (days, clock) = match find_char(e.as_slice(), '-') {
        Some(i) => {
            let head = slice_chars(e.as_slice(), 0, i);
            let tail = slice_chars(e.as_slice(), i + 1, e.len());
            proof {
                assert(head@ =~= e@.take(i as int));
                assert(tail@ =~= e@.skip(i + 1));
            }
            (parse_unsigned_chars(head.as_slice(), 18446744073709551615), tail)
        },
        None => (Some(0u64), e),
    };
    let d = match days {
        Some(d) => d,
        None => return None,
    };
    proof {
        assert(format_elapsed_spec(elapsed@) == from_parts(d as nat, clock_parts(clock@)));
    }
    let pieces = split_chars(clock.as_slice(), ':');
    let ghost ps = split(clock@, ':');
    let mut values: Vec<u64> = Vec::new();
    let mut i: usize = 0;
    while i < pieces.len()
        invariant
            i <= pieces.len(),
            texts(pieces@) == ps,
            ps == split(clock@, ':'),
            format_elapsed_spec(elapsed@) == from_parts(d as nat, clock_parts(clock@)),
            values@.len() == i,
            forall|j: int|
                0 <= j < i ==> parse_unsigned(#[trigger] ps[j], 18446744073709551615) == Some(
                    values@[j] as nat,
                ),
        decreases pieces.len() - i,
    {
        proof {
            assert(ps[i as int] == pieces@[i as int]@);
        }
        match parse_unsigned_chars(pieces[i].as_slice(), 18446744073709551615) {
            Some(v) => values.push(v),
            None => {
                proof {
                    assert(parse_unsigned(ps[i as int], 18446744073709551615) is None);
                    assert(clock_parts(clock@) is None);
                }
                return None;
            },
        }
        i = i + 1;
    }
    let ghost parts = ps.map_values(|p: Seq<char>| parse_unsigned(p, 18446744073709551615)->0);
    proof {
        assert(clock_parts(clock@) == Some(parts));
        assert forall|j: int| 0 <= j < values@.len() implies parts[j] == values@[j] as nat by {}
    }
    if values.len() == 2 {
        Some(elapsed_text_exec(d, 0, values[0], values[1]))
    } else if values.len() == 3 {
        Some(elapsed_text_exec(d, values[0], values[1], values[2]))
    } else {
        None
    }
}

// ---------------------------------------------------------------------------
// The status line
// ---------------------------------------------------------------------------

/// The status line: `running` (green when colored) with its elapsed time when known,
/// `stopped` with where to look, or `not installed` with what to run.
pub open spec fn status_line_spec(state: LaunchAgentState, elapsed: Option<Seq<char>>, color: bool) -> Seq<
    char,
> {
    match state {
        LaunchAgentState::Running { .. } => {
            let running = painted("running"@, "32"@, color);
            match elapsed {
                Some(e) => running + " for "@ + e,
                None => running,
            }
        },
        LaunchAgentState::NotRunning => "stopped — check ~/Library/Logs/kiwi.log"@,
        LaunchAgentState::Missing => "not installed — run `kiwi install`"@,
    }
}

pub fn status_line(state: LaunchAgentState, elapsed: Option<&str>, color: bool) -> (r: String)
    ensures
        r@ == status_line_spec(
            state,
            match elapsed {
                Some(e) => Some(e@),
                None => None,
            },
            color,
        ),
{
    match state {
        LaunchAgentState::Running { .. } => {
            let mut line = paint("running", "32", color);
            if let Some(e) = elapsed {
                push_str(&mut line, " for ");
                push_str(&mut line, e);
            }
            line
        },
        LaunchAgentState::NotRunning => owned("stopped — check ~/Library/Logs/kiwi.log"),
        LaunchAgentState::Missing => owned("not installed — run `kiwi install`"),
    }
}

// ---------------------------------------------------------------------------
// Code signature
// ---------------------------------------------------------------------------

/// What `String::from_utf8_lossy` makes of some bytes.
pub uninterp spec fn utf8_lossy(bytes: Seq<u8>) -> Seq<char>;

/// std's `String::from_utf8_lossy`, owned: the bytes decoded as UTF-8 with each invalid
/// sequence replaced by U+FFFD. The decoding is named, not stated: the contract claims only
/// that the text depends on the bytes alone.
#[verifier::external_body]
fn lossy_text(bytes: &[u8]) -> (r: String)
    ensures
        r@ == utf8_lossy(bytes@),
{
    String::from_utf8_lossy(bytes).into_owned()
}

/// Two outputs on two lines: the first, a line break, the second.
pub fn join_outputs(stdout: &str, stderr: &str) -> (r: String)
    ensures
        r@ == stdout@ + "\n"@ + stderr@,
{
    let mut s = owned(stdout);
    push_str(&mut s, "\n");
    push_str(&mut s, stderr);
    s
}

/// What `codesign -d -r-` printed, on both of its outputs.
pub fn combined_codesign_output(stdout: &[u8], stderr: &[u8]) -> (r: String)
    ensures
        r@ == utf8_lossy(stdout@) + "\n"@ + utf8_lossy(stderr@),
{
    let out = lossy_text(stdout);
    let err = lossy_text(stderr);
    join_outputs(out.as_str(), err.as_str())
}

/// A requirement that names the label as identifier and is not an ad-hoc `cdhash` one.
pub open spec fn stable_requirement_spec(requirement: Seq<char>) -> bool {
    contains(requirement, "identifier \""@ + LABEL@ + "\""@) && !contains(
        requirement,
        "designated => cdhash"@,
    )
}

/// Whether a designated requirement survives rebuilds, so that the Accessibility grant
/// stays with the binary.
pub fn is_stable_requirement(requirement: &str) -> (r: bool)
    ensures
        r == stable_requirement_spec(requirement@),
{
    let mut wanted = owned("identifier \"");
    push_str(&mut wanted, LABEL);
    push_str(&mut wanted, "\"");
    contains_text(requirement, wanted.as_str()) && !contains_text(requirement, "designated => cdhash")
}

/// The text between the first and the last `"` of a line, when there is some.
pub open spec fn quoted_identity(line: Seq<char>) -> Option<Seq<char>> {
    match (first_index(line, '"'), last_index(line, '"')) {
        (Some(f), Some(l)) => if f + 1 < l {
            Some(line.subrange(f + 1, l))
        } else {
            None
        },
        _ => None,
    }
}

/// The quoted identities of the lines, in order.
pub open spec fn identities(ls: Seq<Seq<char>>) -> Seq<Seq<char>>
    decreases ls.len(),
{
    if ls.len() == 0 {
        Seq::empty()
    } else {
        match quoted_identity(ls.last()) {
            Some(id) => identities(ls.drop_last()).push(id),
            None => identities(ls.drop_last()),
        }
    }
}

/// The first identity with a prefix.
pub open spec fn first_with_prefix(ids: Seq<Seq<char>>, prefix: Seq<char>) -> Option<Seq<char>>
    decreases ids.len(),
{
    if ids.len() == 0 {
        None
    } else if starts_with(ids[0], prefix) {
        Some(ids[0])
    } else {
        first_with_prefix(ids.drop_first(), prefix)
    }
}

/// The identity to sign with: a Developer ID Application identity, else an Apple
/// Development one.
pub open spec fn signing_identity_spec(output: Seq<char>) -> Option<Seq<char>> {
    let ids = identities(lines(output));
    match first_with_prefix(ids, "Developer ID Application:"@) {
        Some(id) => Some(id),
        None => first_with_prefix(ids, "Apple Development:"@),
    }
}

fn quoted_identity_exec(line: &[char]) -> (r: Option<Vec<char>>)
    ensures
        match r {
            Some(id) => quoted_identity(line@) == Some(id@),
            None => quoted_identity(line@) is None,
        },
{
    let first = find_char(line, '"');
    let last = rfind_char(line, '"');
    match (first, last) {
        (Some(f), Some(l)) => if f + 1 < l {
            Some(slice_chars(line, f + 1, l))
        } else {
            None
        },
        _ => None,
    }
}

proof fn lemma_first_with_prefix_skip(ids: Seq<Seq<char>>, prefix: Seq<char>, i: int)
    requires
        0 <= i <= ids.len(),
        forall|j: int| 0 <= j < i ==> !starts_with(#[trigger] ids[j], prefix),
    ensures
        first_with_prefix(ids, prefix) == first_with_prefix(ids.skip(i), prefix),
    decreases i,
{
    if i == 0 {
        assert(ids.skip(0) =~= ids);
    } else {
        let rest = ids.drop_first();
        assert(!starts_with(ids[0], prefix));
        assert forall|j: int| 0 <= j < i - 1 implies !starts_with(#[trigger] rest[j], prefix) by {
            assert(rest[j] == ids[j + 1]);
        }
        lemma_first_with_prefix_skip(rest, prefix, i - 1);
        assert(rest.skip(i - 1) =~= ids.skip(i));
    }
}

fn first_with_prefix_exec(ids: &Vec<Vec<char>>, prefix: &str) -> (r: Option<String>)
    ensures
        match r {
            Some(id) => first_with_prefix(texts(ids@), prefix@) == Some(id@),
            None => first_with_prefix(texts(ids@), prefix@) is None,
        },
{
    let ghost all = texts(ids@);
    let mut i: usize = 0;
    while i < ids.len()
        invariant
            i <= ids.len(),
            all == texts(ids@),
            forall|j: int| 0 <= j < i ==> !starts_with(#[trigger] all[j], prefix@),
        decreases ids.len() - i,
    {
        proof {
            assert(all[i as int] == ids@[i as int]@);
        }
        if starts_with_text(ids[i].as_slice(), prefix) {
            proof {
                lemma_first_with_prefix_skip(all, prefix@, i as int);
                assert(all.skip(i as int)[0] == all[i as int]);
            }
            return Some(string_of(ids[i].as_slice()));
        }
        i = i + 1;
    }
    proof {
        lemma_first_with_prefix_skip(all, prefix@, i as int);
        assert(all.skip(i as int).len() == 0);
    }
    None
}

/// Picks the identity to sign with from `security find-identity` output.
pub fn select_signing_identity(output: &str) -> (r: Option<String>)
    ensures
        match r {
            Some(id) => signing_identity_spec(output@) == Some(id@),
            None => signing_identity_spec(output@) is None,
        },
{
    let chars = chars_of(output);
    let ls = lines_of(chars.as_slice());
    let ghost all = texts(ls@);
    let mut ids: Vec<Vec<char>> = Vec::new();
    let mut i: usize = 0;
    while i < ls.len()
        invariant
            i <= ls.len(),
            all == texts(ls@),
            all == lines(output@),
            texts(ids@) == identities(all.take(i as int)),
        decreases ls.len() - i,
    {
        proof {
            assert(all.take(i + 1).drop_last() =~= all.take(i as int));
            assert(all.take(i + 1).last() == ls@[i as int]@);
        }
        match quoted_identity_exec(ls[i].as_slice()) {
            Some(id) => {
                ids.push(id);
                proof {
                    assert(texts(ids@) =~= identities(all.take(i + 1)));
                }
            },
            None => {},
        }
        i = i + 1;
    }
    proof {
        assert(all.take(ls.len() as int) =~= all);
    }
    match first_with_prefix_exec(&ids, "Developer ID Application:") {
        Some(id) => Some(id),
        None => first_with_prefix_exec(&ids, "Apple Development:"),
    }
}

// ---------------------------------------------------------------------------
// The service
// ---------------------------------------------------------------------------

/// The launchd domain of a user: `gui/<uid>`.
pub fn service_domain(uid: u32) -> (r: String)
    ensures
        r@ == "gui/"@ + decimal_text(uid as nat),
{
    let mut s = owned("gui/");
    push_decimal(&mut s, uid as u64);
    s
}

/// The LaunchAgent of a user: `gui/<uid>/<label>`.
pub fn service_target(uid: u32) -> (r: String)
    ensures
        r@ == "gui/"@ + decimal_text(uid as nat) + "/"@ + LABEL@,
{
    let mut s = service_domain(uid);
    push_str(&mut s, "/");
    push_str(&mut s, LABEL);
    s
}

/// The launchd operations the lifecycle commands use.
pub trait ServiceManager {
    fn is_loaded(&self, target: &str) -> Result<bool, String>;

    fn bootstrap(&self, domain: &str, plist: &str) -> Result<(), String>;

    fn bootout(&self, target: &str) -> Result<(), String>;

    fn kickstart(&self, target: &str) -> Result<(), String>;
}

/// What unloading can give, from what the manager answered: the error of the load query,
/// the outcome of the bootout when the service was loaded, or success when it was not.
pub open spec fn unload_outcome<M: ServiceManager>(manager: &M, target: &str, r: Result<(), String>) -> bool {
    ||| (r matches Err(e) && call_ensures(M::is_loaded, (manager, target), Err::<bool, String>(e)))
    ||| (call_ensures(M::is_loaded, (manager, target), Ok::<bool, String>(true)) && call_ensures(
        M::bootout,
        (manager, target),
        r,
    ))
    ||| (call_ensures(M::is_loaded, (manager, target), Ok::<bool, String>(false)) && r is Ok)
}

/// Boots the service out when launchd has it loaded, and leaves it alone otherwise.
pub fn unload_if_loaded<M: ServiceManager>(manager: &M, target: &str) -> (r: Result<(), String>)
    ensures
        unload_outcome(manager, target, r),
{
    match manager.is_loaded(target) {
        Err(e) => Err(e),
        Ok(true) => manager.bootout(target),
        Ok(false) => Ok(()),
    }
}

/// Unloads the service, then restores the key mapping: an unload error is returned as it
/// is, and after a successful unload the outcome is that of restoring the mapping.
pub fn stop_service<M: ServiceManager, F: FnOnce() -> Result<(), String>>(
    manager: &M,
    target: &str,
    remove_mapping: F,
) -> (r: Result<(), String>)
    requires
        remove_mapping.requires(()),
    ensures
        exists|u: Result<(), String>|
            #[trigger] unload_outcome(manager, target, u) && (u is Err ==> r == u) && (u is Ok
                ==> remove_mapping.ensures((), r)),
{
    let u = unload_if_loaded(manager, target);
    match u {
        Err(e) => Err(e),
        Ok(()) => {
            let r = remove_mapping();
            assert(unload_outcome(manager, target, u));
            r
        },
    }
}

/// Starts an installed service: kickstarts it when loaded, bootstraps it from `plist` in
/// `domain` otherwise, and returns that call's outcome (or the load query's error); a
/// service that is not installed is an error.
pub fn start_service<M: ServiceManager>(
    manager: &M,
    target: &str,
    domain: &str,
    plist: &str,
    installed: bool,
) -> (r: Result<(), String>)
    ensures
        !installed ==> (r matches Err(e) && e@ == "Kiwi is not installed; run `kiwi install`"@),
        installed ==> {
            ||| (r matches Err(e) && call_ensures(
                M::is_loaded,
                (manager, target),
                Err::<bool, String>(e),
            ))
            ||| (call_ensures(M::is_loaded, (manager, target), Ok::<bool, String>(true))
                && call_ensures(M::kickstart, (manager, target), r))
            ||| (call_ensures(M::is_loaded, (manager, target), Ok::<bool, String>(false))
                && call_ensures(M::bootstrap, (manager, domain, plist), r))
        },
{
    if !installed {
        return Err(owned("Kiwi is not installed; run `kiwi install`"));
    }
    match manager.is_loaded(target) {
        Err(e) => Err(e),
        Ok(true) => manager.kickstart(target),
        Ok(false) => manager.bootstrap(domain, plist),
    }
}

// ---------------------------------------------------------------------------
// The health report
// ---------------------------------------------------------------------------

/// The report line on the configuration: its path and enabled bindings, or why it failed.
pub open spec fn config_line_spec(path: Seq<char>, config: Result<usize, String>) -> Seq<char> {
    match config {
        Ok(n) => "[ok] config: "@ + path + " ("@ + decimal_text(n as nat) + " enabled bindings)"@,
        Err(e) => "[fail] config: "@ + e@,
    }
}

/// The report line on the code signature.
pub open spec fn signature_line_spec(stable: bool) -> Seq<char> {
    if stable {
        "[ok] stable code-signing identity"@
    } else {
        "[fail] binary is ad-hoc signed; run `kiwi install`"@
    }
}

/// The report lines on the LaunchAgent; Accessibility is reported when it is not installed,
/// where an unknown answer counts as not granted.
pub open spec fn agent_lines_spec(agent: LaunchAgentState, accessibility: Option<bool>) -> Seq<Seq<char>> {
    match agent {
        LaunchAgentState::Running { .. } => seq!["[ok] LaunchAgent is running"@],
        LaunchAgentState::NotRunning => seq![
            "[fail] LaunchAgent is installed but not running; check ~/Library/Logs/kiwi.log"@,
        ],
        LaunchAgentState::Missing => seq![
            "[info] LaunchAgent is not installed (foreground mode is available)"@,
            if accessibility == Some(true) {
                "[ok] foreground Accessibility context"@
            } else {
                "[fail] foreground Accessibility permission is not granted"@
            },
        ],
    }
}

/// Every line of the health report, in order.
pub open spec fn doctor_lines_spec(
    path: Seq<char>,
    config: Result<usize, String>,
    stable: bool,
    agent: LaunchAgentState,
    accessibility: Option<bool>,
) -> Seq<Seq<char>> {
    seq![config_line_spec(path, config), signature_line_spec(stable)] + agent_lines_spec(
        agent,
        accessibility,
    )
}

/// Whether all is well: the configuration loads, the signature is stable, and the agent runs, or it
/// is not installed and the foreground process has Accessibility.
pub open spec fn doctor_healthy(
    config: Result<usize, String>,
    stable: bool,
    agent: LaunchAgentState,
    accessibility: Option<bool>,
) -> bool {
    config is Ok && stable && (agent is Running || (agent is Missing && accessibility == Some(true)))
}

pub open spec fn line_views(lines: Seq<String>) -> Seq<Seq<char>> {
    lines.map_values(|l: String| l@)
}

/// The report line on the configuration at `path`, given its enabled binding count or the
/// error that loading it gave.
pub fn config_line(path: &str, config: &Result<usize, String>) -> (r: String)
    ensures
        r@ == config_line_spec(path@, *config),
{
    match config {
        Ok(n) => {
            let mut s = owned("[ok] config: ");
            push_str(&mut s, path);
            push_str(&mut s, " (");
            push_decimal(&mut s, *n as u64);
            push_str(&mut s, " enabled bindings)");
            s
        },
        Err(e) => {
            let mut s = owned("[fail] config: ");
            push_str(&mut s, e.as_str());
            s
        },
    }
}

/// The report line on the code signature.
pub fn signature_line(stable: bool) -> (r: String)
    ensures
        r@ == signature_line_spec(stable),
{
    if stable {
        owned("[ok] stable code-signing identity")
    } else {
        owned("[fail] binary is ad-hoc signed; run `kiwi install`")
    }
}

/// The health report and whether all is well, from the configuration's load outcome, whether the
/// binary's signature is stable, the LaunchAgent's state and, where it was asked, whether
/// the process has Accessibility.
pub fn doctor_report(
    path: &str,
    config: Result<usize, String>,
    stable: bool,
    agent: LaunchAgentState,
    accessibility: Option<bool>,
) -> (r: (Vec<String>, bool))
    ensures
        r.1 == doctor_healthy(config, stable, agent, accessibility),
        line_views(r.0@) == doctor_lines_spec(path@, config, stable, agent, accessibility),
{
    let mut lines: Vec<String> = Vec::new();
    lines.push(config_line(path, &config));
    lines.push(signature_line(stable));
    let agent_ok = match agent {
        LaunchAgentState::Running { .. } => {
            lines.push(owned("[ok] LaunchAgent is running"));
            true
        },
        LaunchAgentState::NotRunning => {
            lines.push(
                owned("[fail] LaunchAgent is installed but not running; check ~/Library/Logs/kiwi.log"),
            );
            false
        },
        LaunchAgentState::Missing => {
            lines.push(owned("[info] LaunchAgent is not installed (foreground mode is available)"));
            let granted = match accessibility {
                Some(true) => true,
                _ => false,
            };
            if granted {
                lines.push(owned("[ok] foreground Accessibility context"));
            } else {
                lines.push(owned("[fail] foreground Accessibility permission is not granted"));
            }
            granted
        },
    };
    let healthy = config.is_ok() && stable && agent_ok;
    proof {
        assert(line_views(lines@) =~= doctor_lines_spec(path@, config, stable, agent, accessibility));
    }
    (lines, healthy)
}

// ---------------------------------------------------------------------------
// The shortcut table
// ---------------------------------------------------------------------------

/// One table row: shortcut cyan, type yellow and action green when colored.
pub open spec fn table_row(e: (Seq<char>, ActionView), sw: nat, kw: nat, color: bool) -> Seq<char> {
    painted(padded(e.0, sw), "36"@, color) + "  "@ + painted(padded(action_kind(e.1), kw), "33"@, color)
        + "  "@ + painted(action_value(e.1), "32"@, color) + "\n"@
}

pub open spec fn table_rows(es: Seq<(Seq<char>, ActionView)>, sw: nat, kw: nat, color: bool) -> Seq<char>
    decreases es.len(),
{
    if es.len() == 0 {
        Seq::empty()
    } else {
        table_rows(es.drop_last(), sw, kw, color) + table_row(es.last(), sw, kw, color)
    }
}

pub open spec fn shortcut_texts(es: Seq<(Seq<char>, ActionView)>) -> Seq<Seq<char>> {
    es.map_values(|e: (Seq<char>, ActionView)| e.0)
}

pub open spec fn kind_texts(es: Seq<(Seq<char>, ActionView)>) -> Seq<Seq<char>> {
    es.map_values(|e: (Seq<char>, ActionView)| action_kind(e.1))
}

/// The table of configured shortcuts: a count, a header and one aligned row per binding,
/// in shortcut order.
pub open spec fn shortcuts_table_spec(es: Seq<(Seq<char>, ActionView)>, color: bool) -> Seq<char> {
    let sw = widest(shortcut_texts(es), 8);
    let kw = widest(kind_texts(es), 4);
    let noun = if es.len() == 1 {
        "shortcut"@
    } else {
        "shortcuts"@
    };
    painted(decimal_text(es.len()) + " "@ + noun, "1;32"@, color) + "\n\n"@ + painted(
        padded("SHORTCUT"@, sw) + "  "@ + padded("TYPE"@, kw) + "  ACTION"@,
        "1"@,
        color,
    ) + "\n"@ + table_rows(es, sw, kw, color)
}

/// Appends one table row.
fn push_table_row(out: &mut String, shortcut: &String, action: &crate::config::Action, sw: usize, kw: usize, color: bool)
    ensures
        final(out)@ == old(out)@ + table_row((shortcut@, action@), sw as nat, kw as nat, color),
{
    let (kind, value) = action.type_and_value();
    let mut cell = String::new();
    push_padded(&mut cell, shortcut.as_str(), sw);
    let mut kind_cell = String::new();
    push_padded(&mut kind_cell, kind, kw);
    let cell = paint(cell.as_str(), "36", color);
    let kind_cell = paint(kind_cell.as_str(), "33", color);
    let value = paint(value.as_str(), "32", color);
    push_str(out, cell.as_str());
    push_str(out, "  ");
    push_str(out, kind_cell.as_str());
    push_str(out, "  ");
    push_str(out, value.as_str());
    push_str(out, "\n");
    proof {
        assert(out@ =~= old(out)@ + table_row((shortcut@, action@), sw as nat, kw as nat, color));
    }
}

/// The table `kiwi list` prints.
pub fn shortcuts_table(bindings: &Bindings, color: bool) -> (r: String)
    ensures
        r@ == shortcuts_table_spec(bindings@, color),
{
    let entries = bindings.entries();
    let ghost es = bindings@;
    let mut sw: usize = 8;
    let mut kw: usize = 4;
    let mut i: usize = 0;
    while i < entries.len()
        invariant
            i <= entries.len(),
            entries@.map_values(|e: (String, crate::config::Action)| (e.0@, e.1@)) == es,
            sw as nat == widest(shortcut_texts(es).take(i as int), 8),
            kw as nat == widest(kind_texts(es).take(i as int), 4),
        decreases entries.len() - i,
    {
        let n = chars_of(entries[i].0.as_str()).len();
        let (kind, _) = entries[i].1.type_and_value();
        let m = chars_of(kind).len();
        proof {
            assert(es[i as int] == (entries@[i as int].0@, entries@[i as int].1@));
            assert(shortcut_texts(es).take(i + 1).drop_last() =~= shortcut_texts(es).take(i as int));
            assert(kind_texts(es).take(i + 1).drop_last() =~= kind_texts(es).take(i as int));
        }
        if n > sw {
            sw = n;
        }
        if m > kw {
            kw = m;
        }
        i = i + 1;
    }
    proof {
        assert(shortcut_texts(es).take(entries.len() as int) =~= shortcut_texts(es));
        assert(kind_texts(es).take(entries.len() as int) =~= kind_texts(es));
    }
    let mut count = String::new();
    push_decimal(&mut count, entries.len() as u64);
    if entries.len() == 1 {
        push_str(&mut count, " shortcut");
    } else {
        push_str(&mut count, " shortcuts");
    }
    proof {
        reveal_strlit(" shortcut");
        reveal_strlit(" shortcuts");
        reveal_strlit("shortcut");
        reveal_strlit("shortcuts");
        reveal_strlit(" ");
        assert(count@ =~= decimal_text(es.len()) + " "@ + if es.len() == 1 {
            "shortcut"@
        } else {
            "shortcuts"@
        });
    }
    let mut out = paint(count.as_str(), "1;32", color);
    push_str(&mut out, "\n\n");
    let mut header = String::new();
    push_padded(&mut header, "SHORTCUT", sw);
    push_str(&mut header, "  ");
    push_padded(&mut header, "TYPE", kw);
    push_str(&mut header, "  ACTION");
    let header = paint(header.as_str(), "1", color);
    push_str(&mut out, header.as_str());
    push_str(&mut out, "\n");
    let ghost head = out@;
    let mut j: usize = 0;
    while j < entries.len()
        invariant
            j <= entries.len(),
            entries@.map_values(|e: (String, crate::config::Action)| (e.0@, e.1@)) == es,
            out@ == head + table_rows(es.take(j as int), sw as nat, kw as nat, color),
        decreases entries.len() - j,
    {
        push_table_row(&mut out, &entries[j].0, &entries[j].1, sw, kw, color);
        proof {
            assert(es[j as int] == (entries@[j as int].0@, entries@[j as int].1@));
            assert(es.take(j + 1).drop_last() =~= es.take(j as int));
            assert(es.take(j + 1).last() == es[j as int]);
            assert(out@ =~= head + table_rows(es.take(j + 1), sw as nat, kw as nat, color));
        }
        j = j + 1;
    }
    proof {
        assert(es.take(entries.len() as int) =~= es);
    }
    out
}

} // verus!
