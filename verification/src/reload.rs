//! The one-line report of a configuration that failed to reload.
use vstd::prelude::*;

use crate::text::{chars_eq, chars_of, lines, lines_of, owned, push_chars, push_str, string_of, texts, trim, trim_chars};

verus! {

/// The trimmed lines that are not blank, in order.
pub open spec fn meaningful_lines(ls: Seq<Seq<char>>) -> Seq<Seq<char>>
    decreases ls.len(),
{
    if ls.len() == 0 {
        Seq::empty()
    } else {
        let rest = meaningful_lines(ls.drop_last());
        if trim(ls.last()).len() > 0 {
            rest.push(trim(ls.last()))
        } else {
            rest
        }
    }
}

/// The report of a failed reload, from the error's own message (`summary`) and the message
/// of its root cause: the root cause's first and last meaningful lines, joined by `: `
/// when they differ, after the summary when the summary is a single line that adds
/// something.
pub open spec fn reload_error_spec(summary: Seq<char>, root: Seq<char>) -> Seq<char> {
    let ms = meaningful_lines(lines(root));
    let first = if ms.len() > 0 {
        ms[0]
    } else {
        "unknown config error"@
    };
    let last = if ms.len() > 1 {
        ms.last()
    } else {
        first
    };
    let detail = if first == last {
        first
    } else {
        first + ": "@ + last
    };
    if summary.contains('\n') || summary == first || summary == detail {
        detail
    } else {
        summary + ": "@ + detail
    }
}

/// The one-line report of a failed reload.
pub fn reload_error(summary: &str, root: &str) -> (r: String)
    ensures
        r@ == reload_error_spec(summary@, root@),
{
    let ls = lines_of(chars_of(root).as_slice());
    let ghost all = texts(ls@);
    let mut ms: Vec<Vec<char>> = Vec::new();
    let mut i: usize = 0;
    while i < ls.len()
        invariant
            i <= ls.len(),
            all == texts(ls@),
            texts(ms@) == meaningful_lines(all.take(i as int)),
        decreases ls.len() - i,
    {
        let t = trim_chars(ls[i].as_slice());
        proof {
            assert(all.take(i + 1).drop_last() =~= all.take(i as int));
            assert(all.take(i + 1).last() == ls@[i as int]@);
        }
        if t.len() > 0 {
            ms.push(t);
            proof {
                assert(texts(ms@) =~= meaningful_lines(all.take(i + 1)));
            }
        }
        i = i + 1;
    }
    proof {
        assert(all.take(ls.len() as int) =~= all);
        assert(all == lines(root@));
    }
    let ghost mv = texts(ms@);
    let first: Vec<char> = if ms.len() > 0 {
        proof {
            assert(mv[0] == ms@[0]@);
        }
        ms[0].clone()
    } else {
        chars_of("unknown config error")
    };
    let last: Vec<char> = if ms.len() > 1 {
        proof {
            assert(mv.last() == ms@[ms.len() - 1]@);
        }
        ms[ms.len() - 1].clone()
    } else {
        first.clone()
    };
    let mut detail = string_of(first.as_slice());
    if !chars_eq(first.as_slice(), last.as_slice()) {
        push_str(&mut detail, ": ");
        push_chars(&mut detail, last.as_slice());
    }
    let s = chars_of(summary);
    let mut has_newline = false;
    let mut k: usize = 0;
    while k < s.len()
        invariant
            k <= s.len(),
            s@ == summary@,
            has_newline == s@.take(k as int).contains('\n'),
        decreases s.len() - k,
    {
        proof {
            assert(s@.take(k + 1) =~= s@.take(k as int).push(s@[k as int]));
            if s@[k as int] == '\n' {
                assert(s@.take(k + 1)[k as int] == '\n');
            }
            if s@.take(k as int).contains('\n') {
                let j = choose|j: int| 0 <= j < k && #[trigger] s@.take(k as int)[j] == '\n';
                assert(s@.take(k + 1)[j] == '\n');
            }
            if s@.take(k + 1).contains('\n') && s@[k as int] != '\n' {
                let j = choose|j: int| 0 <= j < k + 1 && #[trigger] s@.take(k + 1)[j] == '\n';
                assert(s@.take(k as int)[j] == '\n');
            }
        }
        if s[k] == '\n' {
            has_newline = true;
        }
        k = k + 1;
    }
    proof {
        assert(s@.take(s.len() as int) =~= s@);
    }
    let detail_chars = chars_of(detail.as_str());
    if has_newline || chars_eq(s.as_slice(), first.as_slice()) || chars_eq(s.as_slice(), detail_chars.as_slice()) {
        detail
    } else {
        let mut out = owned(summary);
        push_str(&mut out, ": ");
        push_str(&mut out, detail.as_str());
        out
    }
}

} // verus!
