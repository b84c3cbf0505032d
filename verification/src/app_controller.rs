//! The commands that launch, toggle, hide, cycle or open a new window of an application.
use vstd::prelude::*;

use crate::config::{AppAction, AppBehavior};
use crate::key::is_ascii_alnum_exec;
use crate::text::{chars_of, is_ascii_alnum, owned, split, split_chars, texts, trim, trim_chars};

verus! {

/// The AppleScript behind `toggle`, `hide` and `cycle`. The operation, the kind of target
/// and the target arrive as arguments after `--`, so no target is read as script. Only
/// running processes are looked up; a toggle of an application that is not running
/// answers `missing`.
pub const APP_ACTION_SCRIPT: &'static str = r#"on run argv
    set appOperation to item 1 of argv
    set targetKind to item 2 of argv
    set appTarget to item 3 of argv
    tell application "System Events"
        if targetKind is "path" then
            try
                set targetFile to (POSIX file appTarget) as alias
                set targetBundleId to bundle identifier of (info for targetFile)
            on error
                if appOperation is "toggle" then
                    return "missing"
                end if
                error "application is not running: " & appTarget number 1
            end try
            set matchingProcesses to application processes whose bundle identifier is targetBundleId
        else if targetKind is "bundle_id" then
            set matchingProcesses to application processes whose bundle identifier is appTarget
        else
            set matchingProcesses to application processes whose name is appTarget
        end if
        if (count of matchingProcesses) is 0 then
            if appOperation is "toggle" then
                return "missing"
            end if
            error "application is not running: " & appTarget number 1
        end if
        set targetProcess to item 1 of matchingProcesses

        if appOperation is "toggle" then
            set frontmostProcess to missing value
            repeat with candidateProcess in matchingProcesses
                if frontmost of candidateProcess then
                    set frontmostProcess to contents of candidateProcess
                    exit repeat
                end if
            end repeat
            if frontmostProcess is missing value then
                set frontmost of targetProcess to true
                return "activated"
            end if
            set visible of frontmostProcess to false
            return "hidden"
        else if appOperation is "hide" then
            set visible of targetProcess to false
        else if appOperation is "cycle" then
            set appWindows to windows of targetProcess
            set windowCount to count of appWindows
            if windowCount is 0 then
                error "application has no windows: " & appTarget number 1
            end if

            set currentIndex to 0
            repeat with windowIndex from 1 to windowCount
                set candidateWindow to item windowIndex of appWindows
                set isCurrent to false
                try
                    set isCurrent to value of attribute "AXMain" of candidateWindow
                end try
                if not isCurrent then
                    try
                        set isCurrent to value of attribute "AXFocused" of candidateWindow
                    end try
                end if
                if isCurrent then
                    set currentIndex to windowIndex
                    exit repeat
                end if
            end repeat

            set nextIndex to currentIndex + 1
            if nextIndex > windowCount then set nextIndex to 1
            set nextWindow to item nextIndex of appWindows
            try
                set value of attribute "AXMain" of nextWindow to true
            end try
            try
                set value of attribute "AXFocused" of nextWindow to true
            end try
            try
                perform action "AXRaise" of nextWindow
            end try
            set frontmost of targetProcess to true
        else
            error "unknown app operation: " & appOperation number 2
        end if
    end tell
end run"#;

/// A program and its arguments.
#[derive(Debug, PartialEq, Eq)]
pub struct CommandSpec {
    pub program: &'static str,
    pub args: Vec<String>,
}

pub type CommandView = (Seq<char>, Seq<Seq<char>>);

impl View for CommandSpec {
    type V = CommandView;

    open spec fn view(&self) -> CommandView {
        (self.program@, self.args@.map_values(|a: String| a@))
    }
}

/// How an application is named.
#[derive(Clone, Copy, Debug, PartialEq, Eq, Structural)]
pub enum TargetKind {
    /// By its name.
    Name,
    /// By an absolute path.
    Path,
    /// By a reverse-DNS bundle identifier.
    BundleIdentifier,
}

/// Runs an app action. The macOS implementation runs the command `command_for` gives.
pub trait AppController {
    fn execute(&self, action: &AppAction) -> Result<(), String>;
}

// ---------------------------------------------------------------------------
// The model
// ---------------------------------------------------------------------------

/// The script's name for a kind of target.
pub open spec fn target_kind_arg(kind: TargetKind) -> Seq<char> {
    match kind {
        TargetKind::Name => "name"@,
        TargetKind::Path => "path"@,
        TargetKind::BundleIdentifier => "bundle_id"@,
    }
}

pub open spec fn is_bundle_char(c: char) -> bool {
    is_ascii_alnum(c) || c == '_' || c == '-'
}

/// A non-empty run of ASCII letters, digits, `_` and `-`.
pub open spec fn is_bundle_component(p: Seq<char>) -> bool {
    p.len() > 0 && forall|i: int| 0 <= i < p.len() ==> is_bundle_char(#[trigger] p[i])
}

/// A first component that marks a reverse-DNS name on its own.
pub open spec fn is_known_prefix(p: Seq<char>) -> bool {
    ||| p == "app"@
    ||| p == "co"@
    ||| p == "com"@
    ||| p == "dev"@
    ||| p == "edu"@
    ||| p == "gov"@
    ||| p == "io"@
    ||| p == "me"@
    ||| p == "net"@
    ||| p == "org"@
}

/// Dot-separated components, at least two and, unless the first is a known prefix, at
/// least three, each a non-empty run of ASCII letters, digits, `_` and `-`.
pub open spec fn looks_like_bundle_identifier_spec(target: Seq<char>) -> bool {
    let cs = split(target, '.');
    &&& cs.len() >= 2
    &&& (cs.len() >= 3 || is_known_prefix(cs[0]))
    &&& forall|i: int| 0 <= i < cs.len() ==> is_bundle_component(#[trigger] cs[i])
}

/// How a target names its application: a path starts with `/`.
pub open spec fn classify_spec(target: Seq<char>) -> TargetKind {
    if target.len() > 0 && target[0] == '/' {
        TargetKind::Path
    } else if looks_like_bundle_identifier_spec(target) {
        TargetKind::BundleIdentifier
    } else {
        TargetKind::Name
    }
}

/// The arguments of `open`: `-b` for a bundle identifier, `-a` otherwise, with `-n` for a
/// new window.
pub open spec fn open_args_spec(kind: TargetKind, new_window: bool, target: Seq<char>) -> Seq<Seq<char>> {
    match (kind, new_window) {
        (TargetKind::BundleIdentifier, false) => seq!["-b"@, target],
        (TargetKind::BundleIdentifier, true) => seq!["-n"@, "-b"@, target],
        (_, false) => seq!["-a"@, target],
        (_, true) => seq!["-na"@, target],
    }
}

/// The script's name for an operation it runs.
pub open spec fn operation_name(behavior: AppBehavior) -> Seq<char> {
    match behavior {
        AppBehavior::Toggle => "toggle"@,
        AppBehavior::Hide => "hide"@,
        _ => "cycle"@,
    }
}

/// The command for an app action: `open` launches or opens a new window; the script
/// toggles, hides or cycles.
pub open spec fn command_spec(target: Seq<char>, behavior: AppBehavior) -> CommandView {
    let kind = classify_spec(target);
    match behavior {
        AppBehavior::Launch => ("/usr/bin/open"@, open_args_spec(kind, false, target)),
        AppBehavior::NewWindow => ("/usr/bin/open"@, open_args_spec(kind, true, target)),
        _ => (
            "/usr/bin/osascript"@,
            seq![
                "-e"@,
                APP_ACTION_SCRIPT@,
                "--"@,
                operation_name(behavior),
                target_kind_arg(kind),
                target,
            ],
        ),
    }
}

// ---------------------------------------------------------------------------
// The commands
// ---------------------------------------------------------------------------

impl TargetKind {
    /// The script's name for the kind.
    pub fn as_arg(self) -> (r: &'static str)
        ensures
            r@ == target_kind_arg(self),
    {
        match self {
            TargetKind::Name => "name",
            TargetKind::Path => "path",
            TargetKind::BundleIdentifier => "bundle_id",
        }
    }
}

fn is_known_prefix_exec(p: &[char]) -> (r: bool)
    ensures
        r == is_known_prefix(p@),
{
    let known: [&str; 10] = ["app", "co", "com", "dev", "edu", "gov", "io", "me", "net", "org"];
    let mut i: usize = 0;
    while i < 10
        invariant
            i <= 10,
            known@ == seq!["app", "co", "com", "dev", "edu", "gov", "io", "me", "net", "org"],
            forall|j: int| 0 <= j < i ==> p@ != (#[trigger] known@[j])@,
        decreases 10 - i,
    {
        let name = chars_of(known[i]);
        if crate::text::chars_eq(p, name.as_slice()) {
            return true;
        }
        i = i + 1;
    }
    proof {
        assert(p@ != known@[0]@);
        assert(p@ != known@[1]@);
        assert(p@ != known@[2]@);
        assert(p@ != known@[3]@);
        assert(p@ != known@[4]@);
        assert(p@ != known@[5]@);
        assert(p@ != known@[6]@);
        assert(p@ != known@[7]@);
        assert(p@ != known@[8]@);
        assert(p@ != known@[9]@);
    }
    false
}

fn is_bundle_component_exec(p: &[char]) -> (r: bool)
    ensures
        r == is_bundle_component(p@),
{
    if p.len() == 0 {
        return false;
    }
    let mut i: usize = 0;
    while i < p.len()
        invariant
            i <= p.len(),
            forall|j: int| 0 <= j < i ==> is_bundle_char(#[trigger] p@[j]),
        decreases p.len() - i,
    {
        let c = p[i];
        if !(is_ascii_alnum_exec(c) || c == '_' || c == '-') {
            return false;
        }
        i = i + 1;
    }
    true
}

/// Whether a target reads as a reverse-DNS bundle identifier.
pub fn looks_like_bundle_identifier(target: &str) -> (r: bool)
    ensures
        r == looks_like_bundle_identifier_spec(target@),
{
    let chars = chars_of(target);
    let components = split_chars(chars.as_slice(), '.');
    let ghost cs = split(target@, '.');
    proof {
        crate::text::lemma_split_nonempty(target@, '.');
        assert(texts(components@) == cs);
    }
    if components.len() < 2 {
        return false;
    }
    if components.len() < 3 && !is_known_prefix_exec(components[0].as_slice()) {
        proof {
            assert(cs[0] == components@[0]@);
        }
        return false;
    }
    proof {
        if components.len() < 3 {
            assert(cs[0] == components@[0]@);
        }
    }
    let mut i: usize = 0;
    while i < components.len()
        invariant
            i <= components.len(),
            texts(components@) == cs,
            cs == split(target@, '.'),
            cs.len() == components.len(),
            forall|j: int| 0 <= j < i ==> is_bundle_component(#[trigger] cs[j]),
        decreases components.len() - i,
    {
        proof {
            assert(cs[i as int] == components@[i as int]@);
        }
        if !is_bundle_component_exec(components[i].as_slice()) {
            proof {
                assert(!is_bundle_component(cs[i as int]));
            }
            return false;
        }
        i = i + 1;
    }
    true
}

/// How a target names its application.
pub fn classify_target(target: &str) -> (r: TargetKind)
    ensures
        r == classify_spec(target@),
{
    let chars = chars_of(target);
    if chars.len() > 0 && chars[0] == '/' {
        TargetKind::Path
    } else if looks_like_bundle_identifier(target) {
        TargetKind::BundleIdentifier
    } else {
        TargetKind::Name
    }
}

pub open spec fn strings_view(v: Seq<String>) -> Seq<Seq<char>> {
    v.map_values(|a: String| a@)
}

/// The arguments of `open` for a target.
pub fn open_args(kind: TargetKind, new_window: bool, target: &str) -> (r: Vec<String>)
    ensures
        strings_view(r@) == open_args_spec(kind, new_window, target@),
{
    let mut args: Vec<String> = Vec::new();
    match (kind, new_window) {
        (TargetKind::BundleIdentifier, false) => {
            args.push(owned("-b"));
        },
        (TargetKind::BundleIdentifier, true) => {
            args.push(owned("-n"));
            args.push(owned("-b"));
        },
        (_, false) => {
            args.push(owned("-a"));
        },
        (_, true) => {
            args.push(owned("-na"));
        },
    }
    args.push(owned(target));
    proof {
        assert(strings_view(args@) =~= open_args_spec(kind, new_window, target@));
    }
    args
}

/// The script command for a toggle, hide or cycle.
pub fn osascript(behavior: AppBehavior, kind: TargetKind, target: &str) -> (r: CommandSpec)
    requires
        behavior == AppBehavior::Toggle || behavior == AppBehavior::Hide || behavior
            == AppBehavior::Cycle,
    ensures
        r@ == (
            "/usr/bin/osascript"@,
            seq!["-e"@, APP_ACTION_SCRIPT@, "--"@, operation_name(behavior), target_kind_arg(kind), target@],
        ),
{
    let operation = match behavior {
        AppBehavior::Toggle => "toggle",
        AppBehavior::Hide => "hide",
        _ => "cycle",
    };
    let mut args: Vec<String> = Vec::new();
    args.push(owned("-e"));
    args.push(owned(APP_ACTION_SCRIPT));
    args.push(owned("--"));
    args.push(owned(operation));
    args.push(owned(kind.as_arg()));
    args.push(owned(target));
    let r = CommandSpec { program: "/usr/bin/osascript", args };
    proof {
        assert(r@.1 =~= seq![
            "-e"@,
            APP_ACTION_SCRIPT@,
            "--"@,
            operation_name(behavior),
            target_kind_arg(kind),
            target@,
        ]);
    }
    r
}

/// The command that carries out an app action.
pub fn command_for(action: &AppAction) -> (r: CommandSpec)
    ensures
        r@ == command_spec(action.target@, action.behavior),
{
    let kind = classify_target(action.target.as_str());
    match action.behavior {
        AppBehavior::Launch => CommandSpec {
            program: "/usr/bin/open",
            args: open_args(kind, false, action.target.as_str()),
        },
        AppBehavior::NewWindow => CommandSpec {
            program: "/usr/bin/open",
            args: open_args(kind, true, action.target.as_str()),
        },
        _ => osascript(action.behavior, kind, action.target.as_str()),
    }
}

/// What follows a toggle's script: when it answers `missing`, the application is launched.
pub fn toggle_follow_up(action: &AppAction, output: &str) -> (r: Option<CommandSpec>)
    ensures
        match r {
            Some(c) => action.behavior == AppBehavior::Toggle && trim(output@) == "missing"@ && c@
                == command_spec(action.target@, AppBehavior::Launch),
            None => !(action.behavior == AppBehavior::Toggle && trim(output@) == "missing"@),
        },
{
    if action.behavior != AppBehavior::Toggle {
        return None;
    }
    let answer = trim_chars(chars_of(output).as_slice());
    let missing = chars_of("missing");
    if !crate::text::chars_eq(answer.as_slice(), missing.as_slice()) {
        return None;
    }
    let launch = AppAction { target: action.target.clone(), behavior: AppBehavior::Launch };
    Some(command_for(&launch))
}

} // verus!
