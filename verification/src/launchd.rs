//! The LaunchAgent property list that starts the daemon at login.
use vstd::prelude::*;

use crate::text::{chars_of, owned, push_char, push_str};

verus! {

/// The LaunchAgent's label, which is also the signing identifier.
pub const LABEL: &'static str = "io.github.cesarferreira.kiwi";

/// A character as XML text: the five special characters become entities.
pub open spec fn xml_char(c: char) -> Seq<char> {
    if c == '&' {
        "&amp;"@
    } else if c == '<' {
        "&lt;"@
    } else if c == '>' {
        "&gt;"@
    } else if c == '"' {
        "&quot;"@
    } else if c == '\'' {
        "&apos;"@
    } else {
        seq![c]
    }
}

/// Text as XML character data.
pub open spec fn xml_escaped(s: Seq<char>) -> Seq<char>
    decreases s.len(),
{
    if s.len() == 0 {
        Seq::empty()
    } else {
        xml_escaped(s.drop_last()) + xml_char(s.last())
    }
}

/// Appends text as XML character data.
pub fn push_xml(out: &mut String, value: &str)
    ensures
        final(out)@ == old(out)@ + xml_escaped(value@),
{
    let v = chars_of(value);
    let mut i: usize = 0;
    while i < v.len()
        invariant
            i <= v.len(),
            v@ == value@,
            out@ == old(out)@ + xml_escaped(value@.take(i as int)),
        decreases v.len() - i,
    {
        let c = v[i];
        proof {
            assert(value@.take(i + 1).drop_last() =~= value@.take(i as int));
            assert(value@.take(i + 1).last() == c);
        }
        if c == '&' {
            push_str(out, "&amp;");
        } else if c == '<' {
            push_str(out, "&lt;");
        } else if c == '>' {
            push_str(out, "&gt;");
        } else if c == '"' {
            push_str(out, "&quot;");
        } else if c == '\'' {
            push_str(out, "&apos;");
        } else {
            push_char(out, c);
            proof {
                assert(seq![c] =~= Seq::<char>::empty().push(c));
            }
        }
        proof {
            assert(out@ =~= old(out)@ + xml_escaped(value@.take(i + 1)));
        }
        i = i + 1;
    }
    proof {
        assert(value@.take(v.len() as int) =~= value@);
    }
}

pub open spec fn plist_head() -> Seq<char> {
    "<?xml version=\"1.0\" encoding=\"UTF-8\"?>\n<!DOCTYPE plist PUBLIC \"-//Apple//DTD PLIST 1.0//EN\" \"http://www.apple.com/DTDs/PropertyList-1.0.dtd\">\n<plist version=\"1.0\">\n<dict>\n  <key>Label</key>\n  <string>"@
}

/// The property list: the label, the binary run with `--config <config> run`, started at
/// load and kept alive, with both outputs sent to the log; every path is XML-escaped.
pub open spec fn plist_spec(binary: Seq<char>, config: Seq<char>, log: Seq<char>) -> Seq<char> {
    plist_head() + LABEL@ + "</string>\n  <key>ProgramArguments</key>\n  <array>\n    <string>"@
        + xml_escaped(binary) + "</string>\n    <string>--config</string>\n    <string>"@
        + xml_escaped(config) + "</string>\n    <string>run</string>\n  </array>\n  <key>RunAtLoad</key>\n  <true/>\n  <key>KeepAlive</key>\n  <true/>\n  <key>StandardOutPath</key>\n  <string>"@
        + xml_escaped(log) + "</string>\n  <key>StandardErrorPath</key>\n  <string>"@ + xml_escaped(log)
        + "</string>\n</dict>\n</plist>\n"@
}

/// The LaunchAgent property list for a binary, its configuration and its log.
pub fn launch_agent_plist(binary: &str, config: &str, log: &str) -> (r: String)
    ensures
        r@ == plist_spec(binary@, config@, log@),
{
    let mut out = owned(
        "<?xml version=\"1.0\" encoding=\"UTF-8\"?>\n<!DOCTYPE plist PUBLIC \"-//Apple//DTD PLIST 1.0//EN\" \"http://www.apple.com/DTDs/PropertyList-1.0.dtd\">\n<plist version=\"1.0\">\n<dict>\n  <key>Label</key>\n  <string>",
    );
    push_str(&mut out, LABEL);
    push_str(&mut out, "</string>\n  <key>ProgramArguments</key>\n  <array>\n    <string>");
    push_xml(&mut out, binary);
    push_str(&mut out, "</string>\n    <string>--config</string>\n    <string>");
    push_xml(&mut out, config);
    push_str(
        &mut out,
        "</string>\n    <string>run</string>\n  </array>\n  <key>RunAtLoad</key>\n  <true/>\n  <key>KeepAlive</key>\n  <true/>\n  <key>StandardOutPath</key>\n  <string>",
    );
    push_xml(&mut out, log);
    push_str(&mut out, "</string>\n  <key>StandardErrorPath</key>\n  <string>");
    push_xml(&mut out, log);
    push_str(&mut out, "</string>\n</dict>\n</plist>\n");
    out
}

} // verus!
