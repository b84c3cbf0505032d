//! Keys, modifiers and chords: their names, parsing and canonical form.
use vstd::prelude::*;

use crate::text::{
    chars_eq, chars_of, str_eq, compare_chars, is_ascii_alnum, is_ascii_digit, lemma_text_lt_irreflexive,
    lemma_text_lt_trichotomy, lower, lower_exec, owned, push_chars, push_str, string_of, text_lt,
    trim, trim_chars, trim_start, trim_end, is_ws, split, split_chars, texts, lemma_split_nonempty, lemma_text_lt_transitive,
};

verus! {

// ---------------------------------------------------------------------------
// Names
// ---------------------------------------------------------------------------

/// Trimmed, ASCII-lowercased, with `-` written as `_`.
pub open spec fn normalize_name(s: Seq<char>) -> Seq<char> {
    trim(s).map_values(|c: char| if c == '-' { '_' } else { lower(c) })
}

/// A normalized key name with its alias resolved.
pub open spec fn normalize_key(s: Seq<char>) -> Seq<char> {
    let n = normalize_name(s);
    if n == "esc"@ {
        "escape"@
    } else if n == "return"@ {
        "enter"@
    } else if n == "left_arrow"@ {
        "left"@
    } else if n == "right_arrow"@ {
        "right"@
    } else if n == "up_arrow"@ {
        "up"@
    } else if n == "down_arrow"@ {
        "down"@
    } else if n == "backspace"@ {
        "delete"@
    } else {
        n
    }
}

/// The keys known by name.
pub open spec fn is_named_key(s: Seq<char>) -> bool {
    ||| s == "caps_lock"@
    ||| s == "escape"@
    ||| s == "enter"@
    ||| s == "tab"@
    ||| s == "space"@
    ||| s == "delete"@
    ||| s == "forward_delete"@
    ||| s == "left"@
    ||| s == "right"@
    ||| s == "up"@
    ||| s == "down"@
    ||| s == "home"@
    ||| s == "end"@
    ||| s == "page_up"@
    ||| s == "page_down"@
    ||| s == "minus"@
    ||| s == "equal"@
    ||| s == "left_bracket"@
    ||| s == "right_bracket"@
    ||| s == "backslash"@
    ||| s == "semicolon"@
    ||| s == "quote"@
    ||| s == "comma"@
    ||| s == "period"@
    ||| s == "slash"@
    ||| s == "grave"@
}

pub open spec fn all_digits(d: Seq<char>) -> bool {
    forall|i: int| 0 <= i < d.len() ==> is_ascii_digit(#[trigger] d[i])
}

/// The value of a string of decimal digits.
pub open spec fn decimal(d: Seq<char>) -> nat
    decreases d.len(),
{
    if d.len() == 0 {
        0
    } else {
        decimal(d.drop_last()) * 10 + ((d.last() as int) - 48) as nat
    }
}

/// `from_str` of an unsigned integer type whose largest value is `max`: an optional `+`,
/// then decimal digits whose value is at most `max`.
pub open spec fn parse_unsigned(t: Seq<char>, max: nat) -> Option<nat> {
    let d = if t.len() > 0 && t[0] == '+' {
        t.drop_first()
    } else {
        t
    };
    if d.len() > 0 && all_digits(d) && decimal(d) <= max {
        Some(decimal(d))
    } else {
        None
    }
}

/// Reads an unsigned number as `from_str` does for a type whose largest value is `max`.
pub fn parse_unsigned_chars(t: &[char], max: u64) -> (r: Option<u64>)
    ensures
        match r {
            Some(v) => parse_unsigned(t@, max as nat) == Some(v as nat),
            None => parse_unsigned(t@, max as nat) is None,
        },
{
    let mut i: usize = 0;
    if t.len() > 0 && t[0] == '+' {
        i = 1;
    }
    let start = i;
    let ghost d = t@.subrange(start as int, t@.len() as int);
    proof {
        assert(d =~= if t@.len() > 0 && t@[0] == '+' {
            t@.drop_first()
        } else {
            t@
        });
    }
    if i == t.len() {
        return None;
    }
    let mut value: u64 = 0;
    while i < t.len()
        invariant
            start <= i <= t.len(),
            start < t.len(),
            d == t@.subrange(start as int, t@.len() as int),
            d == (if t@.len() > 0 && t@[0] == '+' {
                t@.drop_first()
            } else {
                t@
            }),
            all_digits(d.take(i - start)),
            value as nat == decimal(d.take(i - start)),
            value <= max,
        decreases t.len() - i,
    {
        let c = t[i];
        if !('0' <= c && c <= '9') {
            proof {
                assert(!is_ascii_digit(d[i - start]));
                assert(!all_digits(d));
            }
            return None;
        }
        let digit: u32 = (c as u32) - 48;
        proof {
            let p = d.take(i - start + 1);
            assert(p.drop_last() =~= d.take(i - start));
            assert(p.last() == c);
            assert(all_digits(p)) by {
                assert forall|j: int| 0 <= j < p.len() implies is_ascii_digit(#[trigger] p[j]) by {
                    if j < p.len() - 1 {
                        assert(p[j] == d.take(i - start)[j]);
                    }
                }
            }
        }
        let next: u128 = (value as u128) * 10 + (digit as u128);
        i = i + 1;
        if next > max as u128 {
            proof {
                if all_digits(d) {
                    lemma_decimal_prefix_le(d, i - start);
                }
            }
            return None;
        }
        value = next as u64;
    }
    proof {
        assert(d.take(i - start) =~= d);
    }
    Some(value)
}

/// `f1` through `f20`: `f`, then the number in decimal digits, with no sign and no
/// leading zero.
pub open spec fn is_function_key(s: Seq<char>) -> bool {
    let d = s.drop_first();
    &&& s.len() > 1
    &&& s[0] == 'f'
    &&& d[0] != '0'
    &&& all_digits(d)
    &&& 1 <= decimal(d) <= 20
}

/// A valid (normalized) key name.
pub open spec fn is_key_name(s: Seq<char>) -> bool {
    ||| is_named_key(s)
    ||| (s.len() == 1 && is_ascii_alnum(s[0]))
    ||| is_function_key(s)
}

pub open spec fn unknown_key_msg(value: Seq<char>) -> Seq<char> {
    "unknown key `"@ + value + "`"@
}

pub open spec fn unknown_modifier_msg(value: Seq<char>) -> Seq<char> {
    "unknown modifier `"@ + value + "`"@
}

pub open spec fn trailing_plus_msg() -> Seq<char> {
    "key chord cannot end with `+`"@
}

/// What parsing a key name gives.
pub open spec fn parse_key_spec(value: Seq<char>) -> Result<Seq<char>, Seq<char>> {
    let k = normalize_key(value);
    if is_key_name(k) {
        Ok(k)
    } else {
        Err(unknown_key_msg(value))
    }
}

// ---------------------------------------------------------------------------
// Key
// ---------------------------------------------------------------------------

/// A physical key, by its normalized name.
#[derive(Debug, PartialEq, Eq, Hash, PartialOrd, Ord)]
pub struct Key(String);

impl View for Key {
    type V = Seq<char>;

    closed spec fn view(&self) -> Seq<char> {
        self.0@
    }
}

impl Key {
    #[verifier::type_invariant]
    closed spec fn wf(self) -> bool {
        is_key_name(self.0@)
    }

    pub fn as_str(&self) -> (r: &str)
        ensures
            r@ == self@,
            is_key_name(self@),
    {
        proof {
            use_type_invariant(self);
        }
        self.0.as_str()
    }

    /// The key with a literal name, when the name is a valid normalized key.
    pub fn from_static(value: &'static str) -> (r: Option<Key>)
        ensures
            r is Some <==> is_key_name(value@),
            r matches Some(k) ==> k@ == value@,
    {
        let v = chars_of(value);
        if is_key_chars(v.as_slice()) {
            Some(Key(owned(value)))
        } else {
            None
        }
    }

    /// Parses a key name, accepting aliases, case and `-` for `_`.
    pub fn parse(value: &str) -> (r: Result<Key, String>)
        ensures
            r matches Ok(k) ==> parse_key_spec(value@) == Ok::<Seq<char>, Seq<char>>(k@),
            r matches Err(e) ==> parse_key_spec(value@) == Err::<Seq<char>, Seq<char>>(e@),
    {
        let v = chars_of(value);
        parse_key_chars(v.as_slice())
    }

    /// Two keys with the same name.
    pub fn same(&self, other: &Key) -> (r: bool)
        ensures
            r == (self@ == other@),
    {
        self.0 == other.0
    }
}

impl Clone for Key {
    fn clone(&self) -> (r: Key)
        ensures
            r@ == self@,
    {
        proof {
            use_type_invariant(self);
        }
        Key(self.0.clone())
    }
}

impl std::str::FromStr for Key {
    type Err = String;

    fn from_str(value: &str) -> (r: Result<Key, String>)
        ensures
            r matches Ok(k) ==> parse_key_spec(value@) == Ok::<Seq<char>, Seq<char>>(k@),
            r matches Err(e) ==> parse_key_spec(value@) == Err::<Seq<char>, Seq<char>>(e@),
    {
        Key::parse(value)
    }
}

/// Whether characters equal a literal.
pub fn is_lit(v: &[char], lit: &str) -> (r: bool)
    ensures
        r == (v@ == lit@),
{
    let l = chars_of(lit);
    chars_eq(v, l.as_slice())
}

/// `normalize_name` on characters.
pub fn normalize_chars(v: &[char]) -> (r: Vec<char>)
    ensures
        r@ == normalize_name(v@),
{
    let t = trim_chars(v);
    let mut r: Vec<char> = Vec::new();
    let mut i: usize = 0;
    while i < t.len()
        invariant
            i <= t.len(),
            r@ == t@.subrange(0, i as int).map_values(
                |c: char|
                    if c == '-' {
                        '_'
                    } else {
                        lower(c)
                    },
            ),
        decreases t.len() - i,
    {
        let c = t[i];
        let d = if c == '-' {
            '_'
        } else {
            lower_exec(c)
        };
        r.push(d);
        i = i + 1;
        proof {
            assert(r@ =~= t@.subrange(0, i as int).map_values(
                |c: char|
                    if c == '-' {
                        '_'
                    } else {
                        lower(c)
                    },
            ));
        }
    }
    proof {
        assert(t@.subrange(0, t@.len() as int) =~= t@);
    }
    r
}

/// `normalize_key` on characters.
pub fn normalize_key_chars(v: &[char]) -> (r: Vec<char>)
    ensures
        r@ == normalize_key(v@),
{
    let n = normalize_chars(v);
    let s = n.as_slice();
    if is_lit(s, "esc") {
        chars_of("escape")
    } else if is_lit(s, "return") {
        chars_of("enter")
    } else if is_lit(s, "left_arrow") {
        chars_of("left")
    } else if is_lit(s, "right_arrow") {
        chars_of("right")
    } else if is_lit(s, "up_arrow") {
        chars_of("up")
    } else if is_lit(s, "down_arrow") {
        chars_of("down")
    } else if is_lit(s, "backspace") {
        chars_of("delete")
    } else {
        n
    }
}

fn is_named_key_chars(s: &[char]) -> (r: bool)
    ensures
        r == is_named_key(s@),
{
    is_lit(s, "caps_lock") || is_lit(s, "escape") || is_lit(s, "enter") || is_lit(s, "tab")
        || is_lit(s, "space") || is_lit(s, "delete") || is_lit(s, "forward_delete") || is_lit(
        s,
        "left",
    ) || is_lit(s, "right") || is_lit(s, "up") || is_lit(s, "down") || is_lit(s, "home")
        || is_lit(s, "end") || is_lit(s, "page_up") || is_lit(s, "page_down") || is_lit(
        s,
        "minus",
    ) || is_lit(s, "equal") || is_lit(s, "left_bracket") || is_lit(s, "right_bracket")
        || is_lit(s, "backslash") || is_lit(s, "semicolon") || is_lit(s, "quote") || is_lit(
        s,
        "comma",
    ) || is_lit(s, "period") || is_lit(s, "slash") || is_lit(s, "grave")
}

pub proof fn lemma_decimal_prefix_le(d: Seq<char>, k: int)
    requires
        all_digits(d),
        0 <= k <= d.len(),
    ensures
        decimal(d.take(k)) <= decimal(d),
    decreases d.len(),
{
    if k < d.len() {
        assert(d.drop_last().take(k) =~= d.take(k));
        assert(all_digits(d.drop_last())) by {
            assert forall|i: int| 0 <= i < d.drop_last().len() implies is_ascii_digit(
                #[trigger] d.drop_last()[i],
            ) by {
                assert(d.drop_last()[i] == d[i]);
            }
        }
        lemma_decimal_prefix_le(d.drop_last(), k);
        assert(is_ascii_digit(d[d.len() - 1]));
    } else {
        assert(d.take(k) =~= d);
    }
}

fn is_function_key_chars(s: &[char]) -> (r: bool)
    ensures
        r == is_function_key(s@),
{
    if s.len() < 2 || s[0] != 'f' || s[1] == '0' {
        return false;
    }
    let ghost d = s@.drop_first();
    let mut i: usize = 1;
    let mut value: u32 = 0;
    while i < s.len()
        invariant
            1 <= i <= s.len(),
            s.len() > 1,
            d == s@.drop_first(),
            d[0] != '0',
            all_digits(d.take(i - 1)),
            value as nat == decimal(d.take(i - 1)),
            value <= 20,
        decreases s.len() - i,
    {
        let c = s[i];
        if !('0' <= c && c <= '9') {
            proof {
                assert(!is_ascii_digit(d[i - 1]));
            }
            return false;
        }
        let digit: u32 = (c as u32) - 48;
        proof {
            let p = d.take(i - 1 + 1);
            assert(p.drop_last() =~= d.take(i - 1));
            assert(p.last() == c);
            assert(all_digits(p)) by {
                assert forall|j: int| 0 <= j < p.len() implies is_ascii_digit(#[trigger] p[j]) by {
                    if j < p.len() - 1 {
                        assert(p[j] == d.take(i - 1)[j]);
                    }
                }
            }
        }
        value = value * 10 + digit;
        i = i + 1;
        if value > 20 {
            proof {
                if all_digits(d) {
                    lemma_decimal_prefix_le(d, i - 1);
                    assert(decimal(d) > 20);
                }
            }
            return false;
        }
    }
    proof {
        assert(d.take(i - 1) =~= d);
    }
    value >= 1
}

/// `is_key_name` on characters.
pub fn is_key_chars(s: &[char]) -> (r: bool)
    ensures
        r == is_key_name(s@),
{
    is_named_key_chars(s) || (s.len() == 1 && is_ascii_alnum_exec(s[0])) || is_function_key_chars(
        s,
    )
}

pub fn is_ascii_alnum_exec(c: char) -> (r: bool)
    ensures
        r == is_ascii_alnum(c),
{
    ('0' <= c && c <= '9') || ('a' <= c && c <= 'z') || ('A' <= c && c <= 'Z')
}

/// A message made of a literal prefix, some characters and a literal suffix.
pub fn framed_message(prefix: &str, middle: &[char], suffix: &str) -> (r: String)
    ensures
        r@ == prefix@ + middle@ + suffix@,
{
    let mut s = String::new();
    push_str(&mut s, prefix);
    push_chars(&mut s, middle);
    push_str(&mut s, suffix);
    proof {
        assert(s@ =~= prefix@ + middle@ + suffix@);
    }
    s
}

/// Parses a key name given as characters.
pub fn parse_key_chars(v: &[char]) -> (r: Result<Key, String>)
    ensures
        r matches Ok(k) ==> parse_key_spec(v@) == Ok::<Seq<char>, Seq<char>>(k@),
        r matches Err(e) ==> parse_key_spec(v@) == Err::<Seq<char>, Seq<char>>(e@),
{
    let k = normalize_key_chars(v);
    if is_key_chars(k.as_slice()) {
        Ok(Key(string_of(k.as_slice())))
    } else {
        Err(framed_message("unknown key `", v, "`"))
    }
}

// ---------------------------------------------------------------------------
// Modifier
// ---------------------------------------------------------------------------

/// A modifier: the virtual Hyper, a generic or side-specific physical modifier,
/// or a named modifier held by a dual-role key.
#[derive(Debug, PartialEq, Eq, Hash, PartialOrd, Ord)]
pub enum Modifier {
    Hyper,
    Command,
    Control,
    Option,
    Shift,
    Function,
    LeftCommand,
    RightCommand,
    LeftControl,
    RightControl,
    LeftOption,
    RightOption,
    LeftShift,
    RightShift,
    Named(String),
}

/// A modifier as a value: its rank in chord order and, for a named modifier, its name.
pub type ModifierView = (nat, Seq<char>);

pub const NAMED_RANK: u8 = 14;

impl Modifier {
    /// Position in the canonical chord order; every named modifier shares the last rank.
    pub open spec fn rank_spec(&self) -> nat {
        match self {
            Modifier::Hyper => 0,
            Modifier::Command => 1,
            Modifier::LeftCommand => 2,
            Modifier::RightCommand => 3,
            Modifier::Control => 4,
            Modifier::LeftControl => 5,
            Modifier::RightControl => 6,
            Modifier::Option => 7,
            Modifier::LeftOption => 8,
            Modifier::RightOption => 9,
            Modifier::Shift => 10,
            Modifier::LeftShift => 11,
            Modifier::RightShift => 12,
            Modifier::Function => 13,
            Modifier::Named(_) => 14,
        }
    }
}

impl View for Modifier {
    type V = ModifierView;

    open spec fn view(&self) -> ModifierView {
        (
            self.rank_spec(),
            match self {
                Modifier::Named(n) => n@,
                _ => Seq::empty(),
            },
        )
    }
}

/// The canonical name of a modifier.
pub open spec fn modifier_name(m: ModifierView) -> Seq<char> {
    if m.0 == 0 {
        "hyper"@
    } else if m.0 == 1 {
        "command"@
    } else if m.0 == 2 {
        "left_command"@
    } else if m.0 == 3 {
        "right_command"@
    } else if m.0 == 4 {
        "control"@
    } else if m.0 == 5 {
        "left_control"@
    } else if m.0 == 6 {
        "right_control"@
    } else if m.0 == 7 {
        "option"@
    } else if m.0 == 8 {
        "left_option"@
    } else if m.0 == 9 {
        "right_option"@
    } else if m.0 == 10 {
        "shift"@
    } else if m.0 == 11 {
        "left_shift"@
    } else if m.0 == 12 {
        "right_shift"@
    } else if m.0 == 13 {
        "fn"@
    } else {
        m.1
    }
}

/// The built-in modifier a normalized name denotes, by rank.
pub open spec fn builtin_rank(n: Seq<char>) -> Option<nat> {
    if n == "hyper"@ {
        Some(0)
    } else if n == "command"@ || n == "cmd"@ {
        Some(1)
    } else if n == "control"@ || n == "ctrl"@ {
        Some(4)
    } else if n == "option"@ || n == "alt"@ {
        Some(7)
    } else if n == "shift"@ {
        Some(10)
    } else if n == "fn"@ || n == "function"@ {
        Some(13)
    } else if n == "left_command"@ || n == "left_cmd"@ {
        Some(2)
    } else if n == "right_command"@ || n == "right_cmd"@ {
        Some(3)
    } else if n == "left_control"@ || n == "left_ctrl"@ {
        Some(5)
    } else if n == "right_control"@ || n == "right_ctrl"@ {
        Some(6)
    } else if n == "left_option"@ || n == "left_alt"@ {
        Some(8)
    } else if n == "right_option"@ || n == "right_alt"@ {
        Some(9)
    } else if n == "left_shift"@ {
        Some(11)
    } else if n == "right_shift"@ {
        Some(12)
    } else {
        None
    }
}

/// What parsing a modifier name gives, where `named` lists the named modifiers in scope.
pub open spec fn parse_modifier_spec(value: Seq<char>, named: Seq<Seq<char>>) -> Result<
    ModifierView,
    Seq<char>,
> {
    let n = normalize_name(value);
    match builtin_rank(n) {
        Some(r) => Ok((r, Seq::empty())),
        None => if named.contains(n) {
            Ok((14, n))
        } else {
            Err(unknown_modifier_msg(value))
        },
    }
}

/// A binding modifier is satisfied by a held one: the same modifier, or a generic
/// modifier and either of its sides.
pub open spec fn modifier_matches(wanted: ModifierView, physical: ModifierView) -> bool {
    ||| wanted == physical
    ||| (wanted.0 == 1 && (physical.0 == 2 || physical.0 == 3))
    ||| (wanted.0 == 4 && (physical.0 == 5 || physical.0 == 6))
    ||| (wanted.0 == 7 && (physical.0 == 8 || physical.0 == 9))
    ||| (wanted.0 == 10 && (physical.0 == 11 || physical.0 == 12))
}

pub open spec fn is_side_specific_rank(r: nat) -> bool {
    r == 2 || r == 3 || r == 5 || r == 6 || r == 8 || r == 9 || r == 11 || r == 12
}

/// The canonical order: by rank, then named modifiers by name.
pub open spec fn modifier_lt(a: ModifierView, b: ModifierView) -> bool {
    a.0 < b.0 || (a.0 == b.0 && text_lt(a.1, b.1))
}

impl Modifier {
    pub fn as_str(&self) -> (r: &str)
        ensures
            r@ == modifier_name(self@),
    {
        match self {
            Modifier::Hyper => "hyper",
            Modifier::Command => "command",
            Modifier::Control => "control",
            Modifier::Option => "option",
            Modifier::Shift => "shift",
            Modifier::Function => "fn",
            Modifier::LeftCommand => "left_command",
            Modifier::RightCommand => "right_command",
            Modifier::LeftControl => "left_control",
            Modifier::RightControl => "right_control",
            Modifier::LeftOption => "left_option",
            Modifier::RightOption => "right_option",
            Modifier::LeftShift => "left_shift",
            Modifier::RightShift => "right_shift",
            Modifier::Named(n) => n.as_str(),
        }
    }

    pub fn rank(&self) -> (r: u8)
        ensures
            r as nat == self@.0,
    {
        match self {
            Modifier::Hyper => 0,
            Modifier::Command => 1,
            Modifier::LeftCommand => 2,
            Modifier::RightCommand => 3,
            Modifier::Control => 4,
            Modifier::LeftControl => 5,
            Modifier::RightControl => 6,
            Modifier::Option => 7,
            Modifier::LeftOption => 8,
            Modifier::RightOption => 9,
            Modifier::Shift => 10,
            Modifier::LeftShift => 11,
            Modifier::RightShift => 12,
            Modifier::Function => 13,
            Modifier::Named(_) => 14,
        }
    }

    /// The same modifier.
    pub fn same(&self, other: &Modifier) -> (r: bool)
        ensures
            r == (self@ == other@),
    {
        let a = self.rank();
        let b = other.rank();
        if a == 14 && b == 14 {
            match (self, other) {
                (Modifier::Named(x), Modifier::Named(y)) => str_eq(x.as_str(), y.as_str()),
                _ => false,
            }
        } else {
            a == b
        }
    }

    /// Whether this (binding) modifier is satisfied by a held `physical` modifier.
    pub fn matches(&self, physical: &Modifier) -> (r: bool)
        ensures
            r == modifier_matches(self@, physical@),
    {
        if self.same(physical) {
            return true;
        }
        let w = self.rank();
        let p = physical.rank();
        (w == 1 && (p == 2 || p == 3)) || (w == 4 && (p == 5 || p == 6)) || (w == 7 && (p == 8
            || p == 9)) || (w == 10 && (p == 11 || p == 12))
    }

    pub fn is_side_specific(&self) -> (r: bool)
        ensures
            r == is_side_specific_rank(self@.0),
    {
        let r = self.rank();
        r == 2 || r == 3 || r == 5 || r == 6 || r == 8 || r == 9 || r == 11 || r == 12
    }

    /// Orders two modifiers canonically: `-1`, `0` or `1`.
    pub fn compare(&self, other: &Modifier) -> (r: i8)
        ensures
            r == -1 <==> modifier_lt(self@, other@),
            r == 0 <==> self@ == other@,
            r == 1 <==> modifier_lt(other@, self@),
    {
        let a = self.rank();
        let b = other.rank();
        proof {
            lemma_text_lt_irreflexive(self@.1);
            lemma_text_lt_irreflexive(other@.1);
            lemma_text_lt_trichotomy(self@.1, other@.1);
        }
        if a < b {
            -1
        } else if b < a {
            1
        } else {
            match (self, other) {
                (Modifier::Named(x), Modifier::Named(y)) => {
                    let xs = chars_of(x.as_str());
                    let ys = chars_of(y.as_str());
                    compare_chars(xs.as_slice(), ys.as_slice())
                },
                _ => 0,
            }
        }
    }

    /// Parses a built-in modifier name.
    pub fn parse(value: &str) -> (r: Result<Modifier, String>)
        ensures
            r matches Ok(m) ==> parse_modifier_spec(value@, Seq::empty()) == Ok::<
                ModifierView,
                Seq<char>,
            >(m@),
            r matches Err(e) ==> parse_modifier_spec(value@, Seq::empty()) == Err::<
                ModifierView,
                Seq<char>,
            >(e@),
    {
        let v = chars_of(value);
        let none: Vec<String> = Vec::new();
        parse_modifier_chars(v.as_slice(), none.as_slice())
    }
}

impl Clone for Modifier {
    fn clone(&self) -> (r: Modifier)
        ensures
            r@ == self@,
    {
        match self {
            Modifier::Hyper => Modifier::Hyper,
            Modifier::Command => Modifier::Command,
            Modifier::Control => Modifier::Control,
            Modifier::Option => Modifier::Option,
            Modifier::Shift => Modifier::Shift,
            Modifier::Function => Modifier::Function,
            Modifier::LeftCommand => Modifier::LeftCommand,
            Modifier::RightCommand => Modifier::RightCommand,
            Modifier::LeftControl => Modifier::LeftControl,
            Modifier::RightControl => Modifier::RightControl,
            Modifier::LeftOption => Modifier::LeftOption,
            Modifier::RightOption => Modifier::RightOption,
            Modifier::LeftShift => Modifier::LeftShift,
            Modifier::RightShift => Modifier::RightShift,
            Modifier::Named(n) => Modifier::Named(n.clone()),
        }
    }
}

impl std::str::FromStr for Modifier {
    type Err = String;

    fn from_str(value: &str) -> (r: Result<Modifier, String>)
        ensures
            r matches Ok(m) ==> parse_modifier_spec(value@, Seq::empty()) == Ok::<
                ModifierView,
                Seq<char>,
            >(m@),
            r matches Err(e) ==> parse_modifier_spec(value@, Seq::empty()) == Err::<
                ModifierView,
                Seq<char>,
            >(e@),
    {
        Modifier::parse(value)
    }
}

/// The names of the given strings, as sequences.
pub open spec fn names_of(named: Seq<String>) -> Seq<Seq<char>> {
    named.map_values(|n: String| n@)
}

fn builtin_from_rank(r: u8) -> (m: Modifier)
    requires
        r <= 13,
    ensures
        m@ == (r as nat, Seq::<char>::empty()),
{
    if r == 0 {
        Modifier::Hyper
    } else if r == 1 {
        Modifier::Command
    } else if r == 2 {
        Modifier::LeftCommand
    } else if r == 3 {
        Modifier::RightCommand
    } else if r == 4 {
        Modifier::Control
    } else if r == 5 {
        Modifier::LeftControl
    } else if r == 6 {
        Modifier::RightControl
    } else if r == 7 {
        Modifier::Option
    } else if r == 8 {
        Modifier::LeftOption
    } else if r == 9 {
        Modifier::RightOption
    } else if r == 10 {
        Modifier::Shift
    } else if r == 11 {
        Modifier::LeftShift
    } else if r == 12 {
        Modifier::RightShift
    } else {
        Modifier::Function
    }
}

pub fn builtin_rank_chars(n: &[char]) -> (r: Option<u8>)
    ensures
        r matches Some(x) ==> x <= 13 && builtin_rank(n@) == Some(x as nat),
        r is None ==> builtin_rank(n@) is None,
{
    if is_lit(n, "hyper") {
        Some(0)
    } else if is_lit(n, "command") || is_lit(n, "cmd") {
        Some(1)
    } else if is_lit(n, "control") || is_lit(n, "ctrl") {
        Some(4)
    } else if is_lit(n, "option") || is_lit(n, "alt") {
        Some(7)
    } else if is_lit(n, "shift") {
        Some(10)
    } else if is_lit(n, "fn") || is_lit(n, "function") {
        Some(13)
    } else if is_lit(n, "left_command") || is_lit(n, "left_cmd") {
        Some(2)
    } else if is_lit(n, "right_command") || is_lit(n, "right_cmd") {
        Some(3)
    } else if is_lit(n, "left_control") || is_lit(n, "left_ctrl") {
        Some(5)
    } else if is_lit(n, "right_control") || is_lit(n, "right_ctrl") {
        Some(6)
    } else if is_lit(n, "left_option") || is_lit(n, "left_alt") {
        Some(8)
    } else if is_lit(n, "right_option") || is_lit(n, "right_alt") {
        Some(9)
    } else if is_lit(n, "left_shift") {
        Some(11)
    } else if is_lit(n, "right_shift") {
        Some(12)
    } else {
        None
    }
}

/// Whether a name occurs among the given strings.
pub fn contains_name(named: &[String], n: &[char]) -> (r: bool)
    ensures
        r == names_of(named@).contains(n@),
{
    let mut i: usize = 0;
    while i < named.len()
        invariant
            i <= named.len(),
            forall|j: int| 0 <= j < i ==> named@[j]@ != n@,
        decreases named.len() - i,
    {
        let c = chars_of(named[i].as_str());
        if chars_eq(c.as_slice(), n) {
            proof {
                assert(names_of(named@)[i as int] == n@);
            }
            return true;
        }
        i = i + 1;
    }
    proof {
        if names_of(named@).contains(n@) {
            let j = choose|j: int| 0 <= j < names_of(named@).len() && names_of(named@)[j] == n@;
            assert(named@[j]@ == n@);
        }
    }
    false
}

/// Parses a modifier name given as characters, with `named` the named modifiers in scope.
pub fn parse_modifier_chars(v: &[char], named: &[String]) -> (r: Result<Modifier, String>)
    ensures
        r matches Ok(m) ==> parse_modifier_spec(v@, names_of(named@)) == Ok::<
            ModifierView,
            Seq<char>,
        >(m@),
        r matches Err(e) ==> parse_modifier_spec(v@, names_of(named@)) == Err::<
            ModifierView,
            Seq<char>,
        >(e@),
{
    let n = normalize_chars(v);
    match builtin_rank_chars(n.as_slice()) {
        Some(r) => Ok(builtin_from_rank(r)),
        None => {
            if contains_name(named, n.as_slice()) {
                Ok(Modifier::Named(string_of(n.as_slice())))
            } else {
                Err(framed_message("unknown modifier `", v, "`"))
            }
        },
    }
}

// ---------------------------------------------------------------------------
// Canonical modifier order
// ---------------------------------------------------------------------------

pub proof fn lemma_modifier_lt_order(a: ModifierView, b: ModifierView, c: ModifierView)
    ensures
        !modifier_lt(a, a),
        modifier_lt(a, b) || modifier_lt(b, a) || a == b,
        !(modifier_lt(a, b) && modifier_lt(b, a)),
        modifier_lt(a, b) && modifier_lt(b, c) ==> modifier_lt(a, c),
{
    lemma_text_lt_irreflexive(a.1);
    lemma_text_lt_trichotomy(a.1, b.1);
    if modifier_lt(a, b) && modifier_lt(b, c) && a.0 == b.0 && b.0 == c.0 {
        lemma_text_lt_transitive(a.1, b.1, c.1);
    }
}

/// Strictly increasing in the canonical order: sorted and without repeats.
pub open spec fn strictly_sorted(s: Seq<ModifierView>) -> bool {
    forall|i: int, j: int| 0 <= i < j < s.len() ==> modifier_lt(#[trigger] s[i], #[trigger] s[j])
}

/// Places a modifier in a canonically ordered list, unless it is already there.
pub open spec fn insert_modifier(t: Seq<ModifierView>, x: ModifierView) -> Seq<ModifierView>
    decreases t.len(),
{
    if t.len() == 0 {
        seq![x]
    } else if t[0] == x {
        t
    } else if modifier_lt(x, t[0]) {
        seq![x] + t
    } else {
        seq![t[0]] + insert_modifier(t.drop_first(), x)
    }
}

/// The modifiers in canonical order, each once.
pub open spec fn canonical_modifiers(s: Seq<ModifierView>) -> Seq<ModifierView>
    decreases s.len(),
{
    if s.len() == 0 {
        Seq::empty()
    } else {
        insert_modifier(canonical_modifiers(s.drop_last()), s.last())
    }
}

pub proof fn lemma_insert_modifier(t: Seq<ModifierView>, x: ModifierView)
    requires
        strictly_sorted(t),
    ensures
        strictly_sorted(insert_modifier(t, x)),
        forall|y: ModifierView| #[trigger]
            insert_modifier(t, x).contains(y) <==> (t.contains(y) || y == x),
    decreases t.len(),
{
    if t.len() == 0 {
        assert(insert_modifier(t, x) =~= seq![x]);
        assert forall|y: ModifierView| #[trigger]
            insert_modifier(t, x).contains(y) <==> (t.contains(y) || y == x) by {
            if y == x {
                assert(insert_modifier(t, x)[0] == y);
            }
        }
    } else if t[0] == x {
        assert(t.contains(x));
    } else if modifier_lt(x, t[0]) {
        let r = seq![x] + t;
        assert forall|i: int, j: int| 0 <= i < j < r.len() implies modifier_lt(
            #[trigger] r[i],
            #[trigger] r[j],
        ) by {
            if i == 0 && j > 1 {
                lemma_modifier_lt_order(x, t[0], t[j - 1]);
            }
        }
        assert forall|y: ModifierView| #[trigger] r.contains(y) <==> (t.contains(y) || y == x) by {
            if r.contains(y) {
                let k = choose|k: int| 0 <= k < r.len() && r[k] == y;
                if k > 0 {
                    assert(t[k - 1] == y);
                }
            }
            if t.contains(y) {
                let k = choose|k: int| 0 <= k < t.len() && t[k] == y;
                assert(r[k + 1] == y);
            }
            if y == x {
                assert(r[0] == y);
            }
        }
    } else {
        let rest = t.drop_first();
        assert(strictly_sorted(rest)) by {
            assert forall|i: int, j: int| 0 <= i < j < rest.len() implies modifier_lt(
                #[trigger] rest[i],
                #[trigger] rest[j],
            ) by {
                assert(rest[i] == t[i + 1] && rest[j] == t[j + 1]);
            }
        }
        lemma_insert_modifier(rest, x);
        let ins = insert_modifier(rest, x);
        let r = seq![t[0]] + ins;
        lemma_modifier_lt_order(x, t[0], t[0]);
        assert forall|i: int, j: int| 0 <= i < j < r.len() implies modifier_lt(
            #[trigger] r[i],
            #[trigger] r[j],
        ) by {
            if i == 0 {
                assert(ins.contains(r[j]));
                if r[j] != x {
                    let k = choose|k: int| 0 <= k < rest.len() && rest[k] == r[j];
                    assert(t[k + 1] == r[j]);
                }
            } else {
                assert(r[i] == ins[i - 1] && r[j] == ins[j - 1]);
            }
        }
        assert forall|y: ModifierView| #[trigger] r.contains(y) <==> (t.contains(y) || y == x) by {
            if r.contains(y) {
                let k = choose|k: int| 0 <= k < r.len() && r[k] == y;
                if k > 0 {
                    assert(ins.contains(y));
                    if rest.contains(y) {
                        let m = choose|m: int| 0 <= m < rest.len() && rest[m] == y;
                        assert(t[m + 1] == y);
                    }
                } else {
                    assert(t[0] == y);
                }
            }
            if t.contains(y) {
                let k = choose|k: int| 0 <= k < t.len() && t[k] == y;
                if k == 0 {
                    assert(r[0] == y);
                } else {
                    assert(rest[k - 1] == y);
                    assert(ins.contains(y));
                    let m = choose|m: int| 0 <= m < ins.len() && ins[m] == y;
                    assert(r[m + 1] == y);
                }
            }
            if y == x {
                assert(ins.contains(y));
                let m = choose|m: int| 0 <= m < ins.len() && ins[m] == y;
                assert(r[m + 1] == y);
            }
        }
    }
}

/// The canonical form is ordered and holds exactly the given modifiers.
pub proof fn lemma_canonical_modifiers(s: Seq<ModifierView>)
    ensures
        strictly_sorted(canonical_modifiers(s)),
        forall|y: ModifierView| #[trigger]
            canonical_modifiers(s).contains(y) <==> s.contains(y),
    decreases s.len(),
{
    if s.len() > 0 {
        lemma_canonical_modifiers(s.drop_last());
        lemma_insert_modifier(canonical_modifiers(s.drop_last()), s.last());
        assert forall|y: ModifierView| #[trigger]
            canonical_modifiers(s).contains(y) <==> s.contains(y) by {
            if s.drop_last().contains(y) {
                let k = choose|k: int| 0 <= k < s.drop_last().len() && s.drop_last()[k] == y;
                assert(s[k] == y);
            }
            if s.contains(y) && y != s.last() {
                let k = choose|k: int| 0 <= k < s.len() && s[k] == y;
                assert(s.drop_last()[k] == y);
            }
            assert(s[s.len() - 1] == s.last());
        }
    }
}

/// Two ordered lists with the same modifiers are the same list.
pub proof fn lemma_sorted_unique(a: Seq<ModifierView>, b: Seq<ModifierView>)
    requires
        strictly_sorted(a),
        strictly_sorted(b),
        forall|y: ModifierView| a.contains(y) <==> b.contains(y),
    ensures
        a == b,
    decreases a.len(),
{
    if a.len() == 0 {
        if b.len() > 0 {
            assert(b.contains(b[0]));
        }
        assert(a =~= b);
    } else {
        assert(a.contains(a[0]));
        assert(b.len() > 0);
        assert(b.contains(b[0]));
        let ka = choose|k: int| 0 <= k < a.len() && a[k] == b[0];
        let kb = choose|k: int| 0 <= k < b.len() && b[k] == a[0];
        if ka > 0 {
            lemma_modifier_lt_order(a[0], b[0], b[0]);
            if kb > 0 {
                lemma_modifier_lt_order(a[0], b[0], a[0]);
            }
        }
        if kb > 0 {
            lemma_modifier_lt_order(b[0], a[0], b[0]);
        }
        assert(a[0] == b[0]);
        let ar = a.drop_first();
        let br = b.drop_first();
        assert forall|y: ModifierView| ar.contains(y) <==> br.contains(y) by {
            if ar.contains(y) {
                let k = choose|k: int| 0 <= k < ar.len() && ar[k] == y;
                assert(a[k + 1] == y);
                assert(b.contains(y));
                let m = choose|m: int| 0 <= m < b.len() && b[m] == y;
                if m == 0 {
                    lemma_modifier_lt_order(a[0], a[k + 1], a[0]);
                }
                assert(br[m - 1] == y);
            }
            if br.contains(y) {
                let k = choose|k: int| 0 <= k < br.len() && br[k] == y;
                assert(b[k + 1] == y);
                assert(a.contains(y));
                let m = choose|m: int| 0 <= m < a.len() && a[m] == y;
                if m == 0 {
                    lemma_modifier_lt_order(b[0], b[k + 1], b[0]);
                }
                assert(ar[m - 1] == y);
            }
        }
        assert(strictly_sorted(ar)) by {
            assert forall|i: int, j: int| 0 <= i < j < ar.len() implies modifier_lt(
                #[trigger] ar[i],
                #[trigger] ar[j],
            ) by {
                assert(ar[i] == a[i + 1] && ar[j] == a[j + 1]);
            }
        }
        assert(strictly_sorted(br)) by {
            assert forall|i: int, j: int| 0 <= i < j < br.len() implies modifier_lt(
                #[trigger] br[i],
                #[trigger] br[j],
            ) by {
                assert(br[i] == b[i + 1] && br[j] == b[j + 1]);
            }
        }
        lemma_sorted_unique(ar, br);
        assert(a =~= seq![a[0]] + ar);
        assert(b =~= seq![b[0]] + br);
    }
}

proof fn lemma_insert_at(t: Seq<ModifierView>, x: ModifierView, j: int)
    requires
        strictly_sorted(t),
        0 <= j <= t.len(),
        forall|k: int| 0 <= k < j ==> modifier_lt(#[trigger] t[k], x),
        j < t.len() ==> !modifier_lt(t[j], x),
    ensures
        j < t.len() && t[j] == x ==> insert_modifier(t, x) == t,
        !(j < t.len() && t[j] == x) ==> insert_modifier(t, x) == t.take(j).push(x) + t.skip(j),
    decreases j,
{
    lemma_modifier_lt_order(x, x, x);
    if j == 0 {
        if t.len() == 0 {
            assert(t.take(0).push(x) + t.skip(0) =~= seq![x]);
        } else if t[0] != x {
            lemma_modifier_lt_order(x, t[0], x);
            assert(t.take(0).push(x) + t.skip(0) =~= seq![x] + t);
        }
    } else {
        lemma_modifier_lt_order(t[0], x, t[0]);
        let rest = t.drop_first();
        assert(strictly_sorted(rest)) by {
            assert forall|a: int, b: int| 0 <= a < b < rest.len() implies modifier_lt(
                #[trigger] rest[a],
                #[trigger] rest[b],
            ) by {
                assert(rest[a] == t[a + 1] && rest[b] == t[b + 1]);
            }
        }
        assert forall|k: int| 0 <= k < j - 1 implies modifier_lt(#[trigger] rest[k], x) by {
            assert(rest[k] == t[k + 1]);
        }
        lemma_insert_at(rest, x, j - 1);
        if j < t.len() && t[j] == x {
            assert(rest[j - 1] == x);
            assert(t =~= seq![t[0]] + rest);
        } else {
            assert(t.take(j).push(x) + t.skip(j) =~= seq![t[0]] + (rest.take(j - 1).push(x)
                + rest.skip(j - 1)));
        }
    }
}

// ---------------------------------------------------------------------------
// Chord
// ---------------------------------------------------------------------------

/// Modifiers as values.
pub open spec fn modifier_views(ms: Seq<Modifier>) -> Seq<ModifierView> {
    ms.map_values(|m: Modifier| m@)
}

/// A chord as a value: its modifiers in order and its key name.
pub type ChordView = (Seq<ModifierView>, Seq<char>);

/// Zero or more modifiers and one key.
#[derive(Debug, PartialEq, Eq, Hash, PartialOrd, Ord)]
pub struct Chord {
    pub modifiers: Vec<Modifier>,
    pub key: Key,
}

impl View for Chord {
    type V = ChordView;

    open spec fn view(&self) -> ChordView {
        (modifier_views(self.modifiers@), self.key@)
    }
}

/// `modifier+` for each modifier, in order.
pub open spec fn modifiers_text(ms: Seq<ModifierView>) -> Seq<char>
    decreases ms.len(),
{
    if ms.len() == 0 {
        Seq::empty()
    } else {
        modifiers_text(ms.drop_last()) + modifier_name(ms.last()) + "+"@
    }
}

/// The text of a chord: its modifiers then its key, joined by `+`.
pub open spec fn chord_text(c: ChordView) -> Seq<char> {
    modifiers_text(c.0) + c.1
}

/// The trimmed `+`-separated parts of a chord.
pub open spec fn chord_parts(value: Seq<char>) -> Seq<Seq<char>> {
    split(value, '+').map_values(|p: Seq<char>| trim(p))
}

/// Parses modifier names in order; the first that fails gives the error.
pub open spec fn parse_modifiers_spec(parts: Seq<Seq<char>>, named: Seq<Seq<char>>) -> Result<
    Seq<ModifierView>,
    Seq<char>,
>
    decreases parts.len(),
{
    if parts.len() == 0 {
        Ok(Seq::empty())
    } else {
        match parse_modifiers_spec(parts.drop_last(), named) {
            Err(e) => Err(e),
            Ok(ms) => match parse_modifier_spec(parts.last(), named) {
                Err(e) => Err(e),
                Ok(m) => Ok(ms.push(m)),
            },
        }
    }
}

/// What parsing a chord gives: its last part is the key, the others are modifiers.
pub open spec fn parse_chord_spec(value: Seq<char>, named: Seq<Seq<char>>) -> Result<
    ChordView,
    Seq<char>,
> {
    let parts = chord_parts(value);
    let key = parts.last();
    if key.len() == 0 {
        Err(trailing_plus_msg())
    } else {
        match parse_modifiers_spec(parts.drop_last(), named) {
            Err(e) => Err(e),
            Ok(ms) => match parse_key_spec(key) {
                Err(e) => Err(e),
                Ok(k) => Ok((canonical_modifiers(ms), k)),
            },
        }
    }
}

/// Copies modifiers.
pub fn clone_modifiers(v: &[Modifier]) -> (r: Vec<Modifier>)
    ensures
        modifier_views(r@) == modifier_views(v@),
{
    let mut r: Vec<Modifier> = Vec::new();
    let mut i: usize = 0;
    while i < v.len()
        invariant
            i <= v.len(),
            r.len() == i,
            forall|k: int| 0 <= k < i ==> (#[trigger] r@[k])@ == v@[k]@,
        decreases v.len() - i,
    {
        let c = v[i].clone();
        r.push(c);
        i = i + 1;
    }
    proof {
        assert(modifier_views(r@) =~= modifier_views(v@));
    }
    r
}

impl Chord {
    /// The chord with its modifiers in canonical order and without repeats.
    pub fn new(modifiers: Vec<Modifier>, key: Key) -> (r: Chord)
        ensures
            r@ == (canonical_modifiers(modifier_views(modifiers@)), key@),
    {
        let ghost input = modifier_views(modifiers@);
        let mut out: Vec<Modifier> = Vec::new();
        let mut i: usize = 0;
        while i < modifiers.len()
            invariant
                i <= modifiers.len(),
                input == modifier_views(modifiers@),
                modifier_views(out@) == canonical_modifiers(input.take(i as int)),
                strictly_sorted(modifier_views(out@)),
            decreases modifiers.len() - i,
        {
            let ghost t = modifier_views(out@);
            let m = &modifiers[i];
            let mut j: usize = 0;
            while j < out.len() && out[j].compare(m) == -1
                invariant
                    j <= out.len(),
                    t == modifier_views(out@),
                    forall|k: int| 0 <= k < j ==> modifier_lt(#[trigger] t[k], m@),
                decreases out.len() - j,
            {
                j = j + 1;
            }
            proof {
                if j < out.len() {
                    assert(t[j as int] == out@[j as int]@);
                }
                lemma_insert_at(t, m@, j as int);
                lemma_insert_modifier(t, m@);
                assert(input.take(i + 1).drop_last() =~= input.take(i as int));
                assert(input.take(i + 1).last() == m@);
            }
            if j < out.len() && out[j].same(m) {
            } else {
                out.insert(j, m.clone());
                proof {
                    assert(modifier_views(out@) =~= t.take(j as int).push(m@) + t.skip(j as int));
                }
            }
            i = i + 1;
        }
        proof {
            assert(input.take(modifiers@.len() as int) =~= input);
        }
        Chord { modifiers: out, key }
    }

    /// Whether the chord holds a modifier.
    pub fn has(&self, modifier: &Modifier) -> (r: bool)
        ensures
            r == self@.0.contains(modifier@),
    {
        let mut i: usize = 0;
        while i < self.modifiers.len()
            invariant
                i <= self.modifiers.len(),
                forall|k: int| 0 <= k < i ==> self.modifiers@[k]@ != modifier@,
            decreases self.modifiers.len() - i,
        {
            if self.modifiers[i].same(modifier) {
                proof {
                    assert(self@.0[i as int] == modifier@);
                }
                return true;
            }
            i = i + 1;
        }
        proof {
            if self@.0.contains(modifier@) {
                let k = choose|k: int| 0 <= k < self@.0.len() && self@.0[k] == modifier@;
                assert(self.modifiers@[k]@ == modifier@);
            }
        }
        false
    }

    /// The chord's text: each modifier's name and then the key, joined by `+`.
    pub fn to_string(&self) -> (r: String)
        ensures
            r@ == chord_text(self@),
    {
        let mut s = String::new();
        let mut i: usize = 0;
        while i < self.modifiers.len()
            invariant
                i <= self.modifiers.len(),
                s@ == modifiers_text(self@.0.take(i as int)),
            decreases self.modifiers.len() - i,
        {
            proof {
                assert(self@.0.take(i + 1).drop_last() =~= self@.0.take(i as int));
                assert(self@.0.take(i + 1).last() == self.modifiers@[i as int]@);
            }
            push_str(&mut s, self.modifiers[i].as_str());
            push_str(&mut s, "+");
            i = i + 1;
        }
        proof {
            assert(self@.0.take(self@.0.len() as int) =~= self@.0);
        }
        push_str(&mut s, self.key.as_str());
        s
    }

    /// Parses a chord of built-in modifiers.
    pub fn parse(value: &str) -> (r: Result<Chord, String>)
        ensures
            r matches Ok(c) ==> parse_chord_spec(value@, Seq::empty()) == Ok::<
                ChordView,
                Seq<char>,
            >(c@),
            r matches Err(e) ==> parse_chord_spec(value@, Seq::empty()) == Err::<
                ChordView,
                Seq<char>,
            >(e@),
    {
        let none: Vec<String> = Vec::new();
        proof {
            assert(names_of(none@) =~= Seq::<Seq<char>>::empty());
        }
        Chord::parse_with(value, none.as_slice())
    }

    /// Parses a chord whose modifiers may also be the named modifiers in `named`.
    pub fn parse_with(value: &str, named: &[String]) -> (r: Result<Chord, String>)
        ensures
            r matches Ok(c) ==> parse_chord_spec(value@, names_of(named@)) == Ok::<
                ChordView,
                Seq<char>,
            >(c@),
            r matches Err(e) ==> parse_chord_spec(value@, names_of(named@)) == Err::<
                ChordView,
                Seq<char>,
            >(e@),
    {
        let v = chars_of(value);
        let raw = split_chars(v.as_slice(), '+');
        let ghost pieces = split(value@, '+');
        let ghost parts = chord_parts(value@);
        proof {
            lemma_split_nonempty(value@, '+');
        }
        let n = raw.len();
        let key_part = trim_chars(raw[n - 1].as_slice());
        proof {
            assert(texts(raw@)[n - 1] == raw@[n - 1]@);
            assert(parts.last() == trim(pieces[n - 1]));
        }
        if key_part.len() == 0 {
            return Err(owned("key chord cannot end with `+`"));
        }
        let ghost named_v = names_of(named@);
        let mut modifiers: Vec<Modifier> = Vec::new();
        let mut i: usize = 0;
        proof {
            assert(parts.take(0) =~= Seq::<Seq<char>>::empty());
            assert(modifier_views(modifiers@) =~= Seq::<ModifierView>::empty());
        }
        while i < n - 1
            invariant
                n == raw.len(),
                n >= 1,
                i <= n - 1,
                texts(raw@) == pieces,
                parts == pieces.map_values(|p: Seq<char>| trim(p)),
                named_v == names_of(named@),
                key_part@ == parts.last(),
                key_part@.len() > 0,
                parts == chord_parts(value@),
                parts.len() == n,
                parse_modifiers_spec(parts.take(i as int), named_v) == Ok::<
                    Seq<ModifierView>,
                    Seq<char>,
                >(modifier_views(modifiers@)),
            decreases n - 1 - i,
        {
            let part = trim_chars(raw[i].as_slice());
            proof {
                assert(texts(raw@)[i as int] == raw@[i as int]@);
                assert(parts.take(i + 1).drop_last() =~= parts.take(i as int));
                assert(parts.take(i + 1).last() == part@);
            }
            match parse_modifier_chars(part.as_slice(), named) {
                Ok(m) => {
                    let ghost before = modifiers@;
                    let ghost mv = m@;
                    modifiers.push(m);
                    proof {
                        assert(modifier_views(modifiers@) =~= modifier_views(before).push(mv));
                    }
                },
                Err(e) => {
                    proof {
                        assert(parts.drop_last().take(i + 1) =~= parts.take(i + 1));
                        assert(parse_modifiers_spec(parts.take(i + 1), named_v) == Err::<
                            Seq<ModifierView>,
                            Seq<char>,
                        >(e@));
                        lemma_parse_modifiers_err(parts.drop_last(), named_v, i + 1);
                    }
                    return Err(e);
                },
            }
            i = i + 1;
        }
        proof {
            assert(parts.take(i as int) =~= parts.drop_last());
        }
        let key = parse_key_chars(key_part.as_slice());
        match key {
            Ok(k) => Ok(Chord::new(modifiers, k)),
            Err(e) => Err(e),
        }
    }
}

/// An error in a prefix of the parts is the error of the whole.
proof fn lemma_parse_modifiers_err(parts: Seq<Seq<char>>, named: Seq<Seq<char>>, k: int)
    requires
        0 <= k <= parts.len(),
        parse_modifiers_spec(parts.take(k), named) is Err,
    ensures
        parse_modifiers_spec(parts, named) == parse_modifiers_spec(parts.take(k), named),
    decreases parts.len() - k,
{
    if k < parts.len() {
        assert(parts.take(k + 1).drop_last() =~= parts.take(k));
        lemma_parse_modifiers_err(parts, named, k + 1);
    } else {
        assert(parts.take(k) =~= parts);
    }
}

impl Clone for Chord {
    fn clone(&self) -> (r: Chord)
        ensures
            r@ == self@,
    {
        Chord { modifiers: clone_modifiers(self.modifiers.as_slice()), key: self.key.clone() }
    }
}

impl std::str::FromStr for Chord {
    type Err = String;

    fn from_str(value: &str) -> (r: Result<Chord, String>)
        ensures
            r matches Ok(c) ==> parse_chord_spec(value@, Seq::empty()) == Ok::<
                ChordView,
                Seq<char>,
            >(c@),
            r matches Err(e) ==> parse_chord_spec(value@, Seq::empty()) == Err::<
                ChordView,
                Seq<char>,
            >(e@),
    {
        Chord::parse(value)
    }
}


// ---------------------------------------------------------------------------
// Chord text reads back as the chord
// ---------------------------------------------------------------------------

/// A name as normalization leaves it: lowercase ASCII letters, digits and `_`.
pub open spec fn is_normal_name(n: Seq<char>) -> bool {
    n.len() > 0 && forall|i: int|
        0 <= i < n.len() ==> (('a' <= #[trigger] n[i] && n[i] <= 'z') || is_ascii_digit(n[i]) || n[i]
            == '_')
}

/// A modifier that reads back from its name: a built-in one, or a named one in scope whose
/// name is normal and no built-in name.
pub open spec fn wf_modifier(m: ModifierView, named: Seq<Seq<char>>) -> bool {
    ||| (m.0 <= 13 && m.1 == Seq::<char>::empty())
    ||| (m.0 == 14 && is_fixed_name(m.1) && builtin_rank(m.1) is None && named.contains(m.1))
}

/// A name that normalization leaves as it is and that holds no `+`.
pub open spec fn is_fixed_name(n: Seq<char>) -> bool {
    normalize_name(n) == n && !n.contains('+')
}

/// A chord in normal form: modifiers in canonical order that read back, and a key name that
/// normalization leaves as it is.
pub open spec fn wf_chord(c: ChordView, named: Seq<Seq<char>>) -> bool {
    &&& strictly_sorted(c.0)
    &&& forall|i: int| 0 <= i < c.0.len() ==> wf_modifier(#[trigger] c.0[i], named)
    &&& is_key_name(c.1)
    &&& is_fixed_name(c.1)
}

pub open spec fn modifier_names(ms: Seq<ModifierView>) -> Seq<Seq<char>> {
    ms.map_values(|m: ModifierView| modifier_name(m))
}

proof fn lemma_normal_name(n: Seq<char>)
    requires
        is_normal_name(n),
    ensures
        trim(n) == n,
        normalize_name(n) == n,
        !n.contains('+'),
{
    assert(!is_ws(n[0]));
    assert(trim_start(n) == n);
    assert(!is_ws(n.last()));
    assert(trim_end(n) == n);
    assert(normalize_name(n) =~= n) by {
        assert forall|i: int| 0 <= i < n.len() implies (if n[i] == '-' {
            '_'
        } else {
            lower(n[i])
        }) == n[i] by {
            assert(('a' <= n[i] && n[i] <= 'z') || is_ascii_digit(n[i]) || n[i] == '_');
        }
    }
    if n.contains('+') {
        let i = choose|i: int| 0 <= i < n.len() && n[i] == '+';
        assert(('a' <= n[i] && n[i] <= 'z') || is_ascii_digit(n[i]) || n[i] == '_');
    }
}

/// One character as name normalization writes it.
pub open spec fn normal_char(c: char) -> char {
    if c == '-' {
        '_'
    } else {
        lower(c)
    }
}

proof fn lemma_normal_char(c: char)
    ensures
        is_ws(normal_char(c)) == is_ws(c),
        normal_char(normal_char(c)) == normal_char(c),
        normal_char(c) == '+' ==> c == '+',
{
    if 'A' <= c && c <= 'Z' {
        assert('a' <= lower(c) && lower(c) <= 'z');
    }
}

/// Text with no whitespace at either end.
pub open spec fn is_trimmed(t: Seq<char>) -> bool {
    t.len() == 0 || (!is_ws(t[0]) && !is_ws(t.last()))
}

proof fn lemma_trim_start_suffix(s: Seq<char>)
    ensures
        trim_start(s).len() <= s.len(),
        trim_start(s) == s.subrange(s.len() - trim_start(s).len(), s.len() as int),
        trim_start(s).len() == 0 || !is_ws(trim_start(s)[0]),
    decreases s.len(),
{
    if s.len() > 0 && is_ws(s[0]) {
        let r = s.drop_first();
        lemma_trim_start_suffix(r);
        assert(r.subrange(r.len() - trim_start(r).len(), r.len() as int) =~= s.subrange(
            s.len() - trim_start(r).len(),
            s.len() as int,
        ));
    } else {
        assert(s.subrange(0, s.len() as int) =~= s);
    }
}

proof fn lemma_trim_end_prefix(s: Seq<char>)
    ensures
        trim_end(s).len() <= s.len(),
        trim_end(s) == s.subrange(0, trim_end(s).len() as int),
        trim_end(s).len() == 0 || !is_ws(trim_end(s).last()),
    decreases s.len(),
{
    if s.len() > 0 && is_ws(s.last()) {
        let r = s.drop_last();
        lemma_trim_end_prefix(r);
        assert(r.subrange(0, trim_end(r).len() as int) =~= s.subrange(0, trim_end(r).len() as int));
    } else {
        assert(s.subrange(0, s.len() as int) =~= s);
    }
}

/// Trimming leaves no whitespace at either end and brings in no character.
proof fn lemma_trim_shape(s: Seq<char>)
    ensures
        is_trimmed(trim(s)),
        forall|c: char| trim(s).contains(c) ==> s.contains(c),
{
    let u = trim_start(s);
    lemma_trim_start_suffix(s);
    lemma_trim_end_prefix(u);
    let t = trim_end(u);
    let off = s.len() - u.len();
    if t.len() > 0 {
        assert(t[0] == u[0]);
    }
    assert forall|c: char| t.contains(c) implies s.contains(c) by {
        let i = choose|i: int| 0 <= i < t.len() && t[i] == c;
        assert(t[i] == u[i]);
        assert(u[i] == s[off + i]);
    }
}

proof fn lemma_trimmed_fixed(t: Seq<char>)
    requires
        is_trimmed(t),
    ensures
        trim(t) == t,
{
}

/// Normalizing a name twice is normalizing it once, and brings in no `+`.
proof fn lemma_normalize_name_twice(p: Seq<char>)
    ensures
        normalize_name(normalize_name(p)) == normalize_name(p),
        is_trimmed(normalize_name(p)),
        !p.contains('+') ==> !normalize_name(p).contains('+'),
{
    let t = trim(p);
    let n = normalize_name(p);
    lemma_trim_shape(p);
    assert(n.len() == t.len());
    assert forall|i: int| 0 <= i < n.len() implies #[trigger] n[i] == normal_char(t[i]) by {}
    if n.len() > 0 {
        lemma_normal_char(t[0]);
        lemma_normal_char(t[t.len() - 1]);
        assert(n.last() == n[n.len() - 1]);
        assert(t.last() == t[t.len() - 1]);
    }
    lemma_trimmed_fixed(n);
    assert(normalize_name(n) =~= n) by {
        assert forall|i: int| 0 <= i < n.len() implies normal_char(n[i]) == n[i] by {
            lemma_normal_char(t[i]);
        }
    }
    if !p.contains('+') && n.contains('+') {
        let i = choose|i: int| 0 <= i < n.len() && n[i] == '+';
        lemma_normal_char(t[i]);
        assert(t.contains('+'));
    }
}

/// A name that normalization leaves as it is carries no whitespace at its ends.
proof fn lemma_fixed_name(n: Seq<char>)
    requires
        normalize_name(n) == n,
    ensures
        trim(n) == n,
{
    lemma_normalize_name_twice(n);
    lemma_trimmed_fixed(n);
}

proof fn lemma_builtin_names(m: ModifierView)
    requires
        m.0 <= 13,
    ensures
        is_normal_name(modifier_name(m)),
        builtin_rank(modifier_name(m)) == Some(m.0),
{
    reveal_strlit("hyper");
    reveal_strlit("command");
    reveal_strlit("cmd");
    reveal_strlit("control");
    reveal_strlit("ctrl");
    reveal_strlit("option");
    reveal_strlit("alt");
    reveal_strlit("shift");
    reveal_strlit("fn");
    reveal_strlit("function");
    reveal_strlit("left_command");
    reveal_strlit("left_cmd");
    reveal_strlit("right_command");
    reveal_strlit("right_cmd");
    reveal_strlit("left_control");
    reveal_strlit("left_ctrl");
    reveal_strlit("right_control");
    reveal_strlit("right_ctrl");
    reveal_strlit("left_option");
    reveal_strlit("left_alt");
    reveal_strlit("right_option");
    reveal_strlit("right_alt");
    reveal_strlit("left_shift");
    reveal_strlit("right_shift");
    let n = modifier_name(m);
    if m.0 == 0 {
        assert(n == "hyper"@);
        assert(builtin_rank("hyper"@) == Some(0nat));
    } else if m.0 == 1 {
        assert(n == "command"@);
        assert(builtin_rank("command"@) == Some(1nat));
    } else if m.0 == 2 {
        assert(n == "left_command"@);
        assert(builtin_rank("left_command"@) == Some(2nat));
    } else if m.0 == 3 {
        assert(n == "right_command"@);
        assert(builtin_rank("right_command"@) == Some(3nat));
    } else if m.0 == 4 {
        assert(n == "control"@);
        assert("control"@[2] != "command"@[2]);
        assert(builtin_rank("control"@) == Some(4nat));
    } else if m.0 == 5 {
        assert(n == "left_control"@);
        assert("left_control"@[7] != "left_command"@[7]);
        assert(builtin_rank("left_control"@) == Some(5nat));
    } else if m.0 == 6 {
        assert(n == "right_control"@);
        assert("right_control"@[8] != "right_command"@[8]);
        assert(builtin_rank("right_control"@) == Some(6nat));
    } else if m.0 == 7 {
        assert(n == "option"@);
        assert(builtin_rank("option"@) == Some(7nat));
    } else if m.0 == 8 {
        assert(n == "left_option"@);
        assert(builtin_rank("left_option"@) == Some(8nat));
    } else if m.0 == 9 {
        assert(n == "right_option"@);
        assert("right_option"@[0] != "left_command"@[0]);
        assert("right_option"@[0] != "left_control"@[0]);
        assert(builtin_rank("right_option"@) == Some(9nat));
    } else if m.0 == 10 {
        assert(n == "shift"@);
        assert("shift"@[0] != "hyper"@[0]);
        assert(builtin_rank("shift"@) == Some(10nat));
    } else if m.0 == 11 {
        assert(n == "left_shift"@);
        assert("left_shift"@[0] != "right_ctrl"@[0]);
        assert(builtin_rank("left_shift"@) == Some(11nat));
    } else if m.0 == 12 {
        assert(n == "right_shift"@);
        assert("right_shift"@[0] != "left_option"@[0]);
        assert(builtin_rank("right_shift"@) == Some(12nat));
    } else {
        assert(n == "fn"@);
        assert(builtin_rank("fn"@) == Some(13nat));
    }
}

/// A name without `+` is one piece.
proof fn lemma_split_single(t: Seq<char>)
    requires
        !t.contains('+'),
    ensures
        split(t, '+') == seq![t],
    decreases t.len(),
{
    if t.len() > 0 {
        assert(!t.drop_last().contains('+')) by {
            if t.drop_last().contains('+') {
                let i = choose|i: int| 0 <= i < t.drop_last().len() && t.drop_last()[i] == '+';
                assert(t[i] == '+');
            }
        }
        lemma_split_single(t.drop_last());
        assert(t.last() != '+') by {
            assert(t[t.len() - 1] == t.last());
        }
        assert(t.drop_last().push(t.last()) =~= t);
        assert(seq![t.drop_last()].update(0, t.drop_last().push(t.last())) =~= seq![t]);
    } else {
        assert(t =~= Seq::<char>::empty());
    }
}

/// Text, `+` and a name without `+` split into the pieces of the text and the name.
proof fn lemma_split_append(s: Seq<char>, t: Seq<char>)
    requires
        !t.contains('+'),
    ensures
        split(s + seq!['+'] + t, '+') == split(s, '+').push(t),
    decreases t.len(),
{
    let x = s + seq!['+'] + t;
    assert(x.len() > 0);
    if t.len() == 0 {
        assert(x.drop_last() =~= s);
        assert(x.last() == '+');
        assert(t =~= Seq::<char>::empty());
        assert(split(x, '+') == split(x.drop_last(), '+').push(Seq::<char>::empty()));
    } else {
        assert(!t.drop_last().contains('+')) by {
            if t.drop_last().contains('+') {
                let i = choose|i: int| 0 <= i < t.drop_last().len() && t.drop_last()[i] == '+';
                assert(t[i] == '+');
            }
        }
        lemma_split_append(s, t.drop_last());
        assert(x.drop_last() =~= s + seq!['+'] + t.drop_last());
        assert(x.last() == t.last());
        assert(t.last() != '+') by {
            assert(t[t.len() - 1] == t.last());
        }
        let rest = split(s, '+').push(t.drop_last());
        assert(t.drop_last().push(t.last()) =~= t);
        assert(rest.last() == t.drop_last());
        assert(rest.update(rest.len() - 1, rest.last().push(t.last())) =~= split(s, '+').push(t));
    }
}

/// The text of modifiers followed by a key splits into their names and the key.
proof fn lemma_split_chord_text(ms: Seq<ModifierView>, k: Seq<char>)
    requires
        !k.contains('+'),
        forall|i: int| 0 <= i < ms.len() ==> !(#[trigger] modifier_name(ms[i])).contains('+'),
    ensures
        split(modifiers_text(ms) + k, '+') == modifier_names(ms).push(k),
    decreases ms.len(),
{
    if ms.len() == 0 {
        assert(modifiers_text(ms) + k =~= k);
        lemma_split_single(k);
        assert(modifier_names(ms).push(k) =~= seq![k]);
    } else {
        let init = ms.drop_last();
        let last = modifier_name(ms.last());
        assert(forall|i: int| 0 <= i < init.len() ==> init[i] == ms[i]);
        assert(!last.contains('+')) by {
            assert(ms[ms.len() - 1] == ms.last());
        }
        lemma_split_chord_text(init, last);
        reveal_strlit("+");
        assert(modifiers_text(ms) + k =~= (modifiers_text(init) + last) + seq!['+'] + k);
        lemma_split_append(modifiers_text(init) + last, k);
        assert(modifier_names(init).push(last) =~= modifier_names(ms));
    }
}

proof fn lemma_parse_names(ms: Seq<ModifierView>, named: Seq<Seq<char>>)
    requires
        forall|i: int| 0 <= i < ms.len() ==> wf_modifier(#[trigger] ms[i], named),
    ensures
        parse_modifiers_spec(modifier_names(ms), named) == Ok::<Seq<ModifierView>, Seq<char>>(ms),
    decreases ms.len(),
{
    if ms.len() > 0 {
        let init = ms.drop_last();
        let m = ms.last();
        assert(forall|i: int| 0 <= i < init.len() ==> init[i] == ms[i]);
        lemma_parse_names(init, named);
        assert(modifier_names(ms).drop_last() =~= modifier_names(init));
        assert(modifier_names(ms).last() == modifier_name(m));
        assert(wf_modifier(m, named)) by {
            assert(ms[ms.len() - 1] == m);
        }
        if m.0 <= 13 {
            lemma_builtin_names(m);
            lemma_normal_name(modifier_name(m));
        } else {
            lemma_fixed_name(m.1);
        }
        assert(init.push(m) =~= ms);
    } else {
        assert(modifier_names(ms) =~= Seq::<Seq<char>>::empty());
        assert(ms =~= Seq::<ModifierView>::empty());
    }
}

proof fn lemma_normal_key(k: Seq<char>)
    requires
        is_key_name(k),
        is_fixed_name(k),
    ensures
        parse_key_spec(k) == Ok::<Seq<char>, Seq<char>>(k),
        k.len() > 0,
{
    reveal_strlit("esc");
    reveal_strlit("return");
    reveal_strlit("left_arrow");
    reveal_strlit("right_arrow");
    reveal_strlit("up_arrow");
    reveal_strlit("down_arrow");
    reveal_strlit("backspace");
    reveal_strlit("caps_lock");
    reveal_strlit("escape");
    reveal_strlit("enter");
    reveal_strlit("tab");
    reveal_strlit("space");
    reveal_strlit("delete");
    reveal_strlit("forward_delete");
    reveal_strlit("left");
    reveal_strlit("right");
    reveal_strlit("up");
    reveal_strlit("down");
    reveal_strlit("home");
    reveal_strlit("end");
    reveal_strlit("page_up");
    reveal_strlit("page_down");
    reveal_strlit("minus");
    reveal_strlit("equal");
    reveal_strlit("left_bracket");
    reveal_strlit("right_bracket");
    reveal_strlit("backslash");
    reveal_strlit("semicolon");
    reveal_strlit("quote");
    reveal_strlit("comma");
    reveal_strlit("period");
    reveal_strlit("slash");
    reveal_strlit("grave");
}

/// A chord in normal form reads back from its text: the text `to_string` writes parses to
/// the same chord.
pub proof fn lemma_chord_text_round_trip(c: ChordView, named: Seq<Seq<char>>)
    requires
        wf_chord(c, named),
    ensures
        parse_chord_spec(chord_text(c), named) == Ok::<ChordView, Seq<char>>(c),
{
    let names = modifier_names(c.0);
    assert forall|i: int| 0 <= i < c.0.len() implies !(#[trigger] modifier_name(c.0[i])).contains('+') by {
        let m = c.0[i];
        assert(wf_modifier(m, named));
        if m.0 <= 13 {
            lemma_builtin_names(m);
            lemma_normal_name(modifier_name(m));
        } else {
            lemma_fixed_name(m.1);
        }
    }
    lemma_fixed_name(c.1);
    lemma_normal_key(c.1);
    lemma_split_chord_text(c.0, c.1);
    let pieces = names.push(c.1);
    assert(chord_parts(chord_text(c)) =~= pieces) by {
        assert forall|i: int| 0 <= i < pieces.len() implies trim(pieces[i]) == pieces[i] by {
            if i < names.len() {
                let m = c.0[i];
                assert(wf_modifier(m, named));
                if m.0 <= 13 {
                    lemma_builtin_names(m);
                    lemma_normal_name(modifier_name(m));
                } else {
                    lemma_fixed_name(m.1);
                }
            }
        }
    }
    assert(pieces.drop_last() =~= names);
    lemma_parse_names(c.0, named);
    lemma_canonical_modifiers(c.0);
    lemma_sorted_unique(canonical_modifiers(c.0), c.0);
}

/// No piece of a split holds the separator.
proof fn lemma_split_pieces(s: Seq<char>, sep: char)
    ensures
        forall|i: int| 0 <= i < split(s, sep).len() ==> !(#[trigger] split(s, sep)[i]).contains(sep),
    decreases s.len(),
{
    if s.len() > 0 {
        let rest = split(s.drop_last(), sep);
        lemma_split_pieces(s.drop_last(), sep);
        lemma_split_nonempty(s.drop_last(), sep);
        if s.last() != sep {
            let last = rest.last().push(s.last());
            assert(!last.contains(sep)) by {
                if last.contains(sep) {
                    let j = choose|j: int| 0 <= j < last.len() && last[j] == sep;
                    if j < rest.last().len() {
                        assert(rest[rest.len() - 1] == rest.last());
                        assert(rest.last().contains(sep));
                    }
                }
            }
        }
    }
}

/// A key that parses from a piece without `+` is a name that normalization leaves as it is.
proof fn lemma_parsed_key(value: Seq<char>)
    requires
        parse_key_spec(value) is Ok,
        !value.contains('+'),
    ensures
        is_key_name(parse_key_spec(value)->Ok_0),
        is_fixed_name(parse_key_spec(value)->Ok_0),
{
    let n = normalize_name(value);
    let k = parse_key_spec(value)->Ok_0;
    lemma_normalize_name_twice(value);
    if k != n {
        reveal_strlit("esc");
        reveal_strlit("return");
        reveal_strlit("left_arrow");
        reveal_strlit("right_arrow");
        reveal_strlit("up_arrow");
        reveal_strlit("down_arrow");
        reveal_strlit("backspace");
        reveal_strlit("escape");
        reveal_strlit("enter");
        reveal_strlit("left");
        reveal_strlit("right");
        reveal_strlit("up");
        reveal_strlit("down");
        reveal_strlit("delete");
        assert(is_normal_name(k));
        lemma_normal_name(k);
    }
}

/// Modifiers that parse from pieces without `+` read back from their names.
proof fn lemma_parsed_modifiers(parts: Seq<Seq<char>>, named: Seq<Seq<char>>)
    requires
        parse_modifiers_spec(parts, named) is Ok,
        forall|i: int| 0 <= i < parts.len() ==> !(#[trigger] parts[i]).contains('+'),
    ensures
        forall|i: int|
            0 <= i < parse_modifiers_spec(parts, named)->Ok_0.len() ==> wf_modifier(
                #[trigger] parse_modifiers_spec(parts, named)->Ok_0[i],
                named,
            ),
    decreases parts.len(),
{
    if parts.len() > 0 {
        let init = parts.drop_last();
        assert forall|i: int| 0 <= i < init.len() implies !(#[trigger] init[i]).contains('+') by {
            assert(init[i] == parts[i]);
        }
        lemma_parsed_modifiers(init, named);
        let last = parts.last();
        assert(!last.contains('+')) by {
            assert(parts[parts.len() - 1] == last);
        }
        lemma_normalize_name_twice(last);
        let ms = parse_modifiers_spec(parts, named)->Ok_0;
        let prev = parse_modifiers_spec(init, named)->Ok_0;
        assert forall|i: int| 0 <= i < ms.len() implies wf_modifier(#[trigger] ms[i], named) by {
            if i < prev.len() {
                assert(ms[i] == prev[i]);
            }
        }
    }
}

// ---------------------------------------------------------------------------
// Laws
// ---------------------------------------------------------------------------

/// Modifier order and repeats do not matter: lists with the same modifiers have the same
/// canonical form.
pub proof fn lemma_modifier_order_irrelevant(a: Seq<ModifierView>, b: Seq<ModifierView>)
    requires
        forall|m: ModifierView| a.contains(m) <==> b.contains(m),
    ensures
        canonical_modifiers(a) == canonical_modifiers(b),
{
    lemma_canonical_modifiers(a);
    lemma_canonical_modifiers(b);
    lemma_sorted_unique(canonical_modifiers(a), canonical_modifiers(b));
}

/// A generic modifier is satisfied by either of its physical sides; a side-specific one is
/// not satisfied by the other side, nor by the generic one.
pub proof fn lemma_generic_modifier_matches_either_side(generic: nat)
    requires
        generic == 1 || generic == 4 || generic == 7 || generic == 10,
    ensures
        modifier_matches((generic, Seq::empty()), ((generic + 1) as nat, Seq::empty())),
        modifier_matches((generic, Seq::empty()), ((generic + 2) as nat, Seq::empty())),
        !modifier_matches(((generic + 1) as nat, Seq::empty()), ((generic + 2) as nat, Seq::empty())),
        !modifier_matches(((generic + 2) as nat, Seq::empty()), ((generic + 1) as nat, Seq::empty())),
        !modifier_matches(((generic + 1) as nat, Seq::empty()), (generic, Seq::empty())),
{
}

/// Every chord that parses reads back from its own text: parsing what `to_string` writes
/// for a parsed chord gives that chord again.
pub proof fn lemma_parsed_chord_reads_back(text: Seq<char>, named: Seq<Seq<char>>)
    requires
        parse_chord_spec(text, named) is Ok,
    ensures
        parse_chord_spec(chord_text(parse_chord_spec(text, named)->Ok_0), named) == parse_chord_spec(
            text,
            named,
        ),
{
    let c = parse_chord_spec(text, named)->Ok_0;
    let pieces = split(text, '+');
    let parts = chord_parts(text);
    lemma_split_pieces(text, '+');
    lemma_split_nonempty(text, '+');
    assert forall|i: int| 0 <= i < parts.len() implies !(#[trigger] parts[i]).contains('+') by {
        lemma_trim_shape(pieces[i]);
    }
    let init = parts.drop_last();
    assert forall|i: int| 0 <= i < init.len() implies !(#[trigger] init[i]).contains('+') by {
        assert(init[i] == parts[i]);
    }
    assert(!parts.last().contains('+')) by {
        assert(parts[parts.len() - 1] == parts.last());
    }
    let ms = parse_modifiers_spec(init, named)->Ok_0;
    lemma_parsed_modifiers(init, named);
    lemma_parsed_key(parts.last());
    lemma_canonical_modifiers(ms);
    assert(c.0 == canonical_modifiers(ms));
    assert forall|i: int| 0 <= i < c.0.len() implies wf_modifier(#[trigger] c.0[i], named) by {
        assert(canonical_modifiers(ms).contains(c.0[i]));
        let j = choose|j: int| 0 <= j < ms.len() && ms[j] == c.0[i];
        assert(wf_modifier(ms[j], named));
    }
    lemma_chord_text_round_trip(c, named);
}

/// Each key alias reads as the key it names: text that normalizes to an alias parses to the
/// same key as the name it stands for, and that name parses to itself.
pub proof fn lemma_key_aliases(s: Seq<char>)
    ensures
        normalize_name(s) == "esc"@ ==> parse_key_spec(s) == parse_key_spec("escape"@),
        normalize_name(s) == "return"@ ==> parse_key_spec(s) == parse_key_spec("enter"@),
        normalize_name(s) == "left_arrow"@ ==> parse_key_spec(s) == parse_key_spec("left"@),
        normalize_name(s) == "right_arrow"@ ==> parse_key_spec(s) == parse_key_spec("right"@),
        normalize_name(s) == "up_arrow"@ ==> parse_key_spec(s) == parse_key_spec("up"@),
        normalize_name(s) == "down_arrow"@ ==> parse_key_spec(s) == parse_key_spec("down"@),
        normalize_name(s) == "backspace"@ ==> parse_key_spec(s) == parse_key_spec("delete"@),
        parse_key_spec("escape"@) == Ok::<Seq<char>, Seq<char>>("escape"@),
        parse_key_spec("enter"@) == Ok::<Seq<char>, Seq<char>>("enter"@),
        parse_key_spec("left"@) == Ok::<Seq<char>, Seq<char>>("left"@),
        parse_key_spec("right"@) == Ok::<Seq<char>, Seq<char>>("right"@),
        parse_key_spec("up"@) == Ok::<Seq<char>, Seq<char>>("up"@),
        parse_key_spec("down"@) == Ok::<Seq<char>, Seq<char>>("down"@),
        parse_key_spec("delete"@) == Ok::<Seq<char>, Seq<char>>("delete"@),
{
    reveal_strlit("esc");
    reveal_strlit("return");
    reveal_strlit("left_arrow");
    reveal_strlit("right_arrow");
    reveal_strlit("up_arrow");
    reveal_strlit("down_arrow");
    reveal_strlit("backspace");
    reveal_strlit("escape");
    reveal_strlit("enter");
    reveal_strlit("left");
    reveal_strlit("right");
    reveal_strlit("up");
    reveal_strlit("down");
    reveal_strlit("delete");
    assert(is_normal_name("escape"@));
    assert(is_normal_name("enter"@));
    assert(is_normal_name("left"@));
    assert(is_normal_name("right"@));
    assert(is_normal_name("up"@));
    assert(is_normal_name("down"@));
    assert(is_normal_name("delete"@));
    lemma_normal_name("escape"@);
    lemma_normal_name("enter"@);
    lemma_normal_name("left"@);
    lemma_normal_name("right"@);
    lemma_normal_name("up"@);
    lemma_normal_name("down"@);
    lemma_normal_name("delete"@);
    lemma_normal_key("escape"@);
    lemma_normal_key("enter"@);
    lemma_normal_key("left"@);
    lemma_normal_key("right"@);
    lemma_normal_key("up"@);
    lemma_normal_key("down"@);
    lemma_normal_key("delete"@);
    let n = normalize_name(s);
    if n == "return"@ {
        assert(n.len() != "esc"@.len());
    } else if n == "left_arrow"@ {
        assert(n.len() != "esc"@.len() && n.len() != "return"@.len());
    } else if n == "right_arrow"@ {
        assert(n.len() != "esc"@.len() && n.len() != "return"@.len() && n.len() != "left_arrow"@.len());
    } else if n == "up_arrow"@ {
        assert(n.len() != "esc"@.len() && n.len() != "return"@.len() && n.len() != "left_arrow"@.len()
            && n.len() != "right_arrow"@.len());
    } else if n == "down_arrow"@ {
        assert(n.len() != "esc"@.len() && n.len() != "return"@.len() && n[0] != "left_arrow"@[0]
            && n.len() != "right_arrow"@.len() && n.len() != "up_arrow"@.len());
    } else if n == "backspace"@ {
        assert(n.len() != "esc"@.len() && n.len() != "return"@.len() && n.len() != "left_arrow"@.len()
            && n.len() != "right_arrow"@.len() && n.len() != "up_arrow"@.len() && n.len()
            != "down_arrow"@.len());
    }
}

/// The rank each built-in modifier name and alias denotes.
#[verifier::spinoff_prover]
#[verifier::rlimit(40)]
proof fn lemma_builtin_rank_of(n: Seq<char>)
    ensures
        n == "command"@ ==> builtin_rank(n) == Some(1nat),
        n == "cmd"@ ==> builtin_rank(n) == Some(1nat),
        n == "control"@ ==> builtin_rank(n) == Some(4nat),
        n == "ctrl"@ ==> builtin_rank(n) == Some(4nat),
        n == "option"@ ==> builtin_rank(n) == Some(7nat),
        n == "alt"@ ==> builtin_rank(n) == Some(7nat),
        n == "fn"@ ==> builtin_rank(n) == Some(13nat),
        n == "function"@ ==> builtin_rank(n) == Some(13nat),
        n == "left_command"@ ==> builtin_rank(n) == Some(2nat),
        n == "left_cmd"@ ==> builtin_rank(n) == Some(2nat),
        n == "right_command"@ ==> builtin_rank(n) == Some(3nat),
        n == "right_cmd"@ ==> builtin_rank(n) == Some(3nat),
        n == "left_control"@ ==> builtin_rank(n) == Some(5nat),
        n == "left_ctrl"@ ==> builtin_rank(n) == Some(5nat),
        n == "right_control"@ ==> builtin_rank(n) == Some(6nat),
        n == "right_ctrl"@ ==> builtin_rank(n) == Some(6nat),
        n == "left_option"@ ==> builtin_rank(n) == Some(8nat),
        n == "left_alt"@ ==> builtin_rank(n) == Some(8nat),
        n == "right_option"@ ==> builtin_rank(n) == Some(9nat),
        n == "right_alt"@ ==> builtin_rank(n) == Some(9nat),
{
    reveal_strlit("hyper");
    reveal_strlit("command");
    reveal_strlit("cmd");
    reveal_strlit("control");
    reveal_strlit("ctrl");
    reveal_strlit("option");
    reveal_strlit("alt");
    reveal_strlit("shift");
    reveal_strlit("fn");
    reveal_strlit("function");
    reveal_strlit("left_command");
    reveal_strlit("left_cmd");
    reveal_strlit("right_command");
    reveal_strlit("right_cmd");
    reveal_strlit("left_control");
    reveal_strlit("left_ctrl");
    reveal_strlit("right_control");
    reveal_strlit("right_ctrl");
    reveal_strlit("left_option");
    reveal_strlit("left_alt");
    reveal_strlit("right_option");
    reveal_strlit("right_alt");
    reveal_strlit("left_shift");
    reveal_strlit("right_shift");
    if n == "command"@ {
        assert(n.len() != "hyper"@.len());
    } else if n == "cmd"@ {
        assert(n.len() != "hyper"@.len() && n.len() != "command"@.len());
    } else if n == "control"@ {
        assert(n.len() != "hyper"@.len() && n[2] != "command"@[2] && n.len() != "cmd"@.len());
    } else if n == "ctrl"@ {
        assert(n.len() != "hyper"@.len() && n.len() != "command"@.len() && n.len() != "cmd"@.len() && n.len() != "control"@.len());
    } else if n == "option"@ {
        assert(n.len() != "hyper"@.len() && n.len() != "command"@.len() && n.len() != "cmd"@.len() && n.len() != "control"@.len() && n.len() != "ctrl"@.len());
    } else if n == "alt"@ {
        assert(n.len() != "hyper"@.len() && n.len() != "command"@.len() && n[0] != "cmd"@[0] && n.len() != "control"@.len() && n.len() != "ctrl"@.len() && n.len() != "option"@.len());
    } else if n == "fn"@ {
        assert(n.len() != "hyper"@.len() && n.len() != "command"@.len() && n.len() != "cmd"@.len() && n.len() != "control"@.len() && n.len() != "ctrl"@.len() && n.len() != "option"@.len() && n.len() != "alt"@.len() && n.len() != "shift"@.len());
    } else if n == "function"@ {
        assert(n.len() != "hyper"@.len() && n.len() != "command"@.len() && n.len() != "cmd"@.len() && n.len() != "control"@.len() && n.len() != "ctrl"@.len() && n.len() != "option"@.len() && n.len() != "alt"@.len() && n.len() != "shift"@.len() && n.len() != "fn"@.len());
    } else if n == "left_command"@ {
        assert(n.len() != "hyper"@.len() && n.len() != "command"@.len() && n.len() != "cmd"@.len() && n.len() != "control"@.len() && n.len() != "ctrl"@.len() && n.len() != "option"@.len() && n.len() != "alt"@.len() && n.len() != "shift"@.len() && n.len() != "fn"@.len() && n.len() != "function"@.len());
    } else if n == "left_cmd"@ {
        assert(n.len() != "hyper"@.len() && n.len() != "command"@.len() && n.len() != "cmd"@.len() && n.len() != "control"@.len() && n.len() != "ctrl"@.len() && n.len() != "option"@.len() && n.len() != "alt"@.len() && n.len() != "shift"@.len() && n.len() != "fn"@.len() && n[0] != "function"@[0] && n.len() != "left_command"@.len());
    } else if n == "right_command"@ {
        assert(n.len() != "hyper"@.len() && n.len() != "command"@.len() && n.len() != "cmd"@.len() && n.len() != "control"@.len() && n.len() != "ctrl"@.len() && n.len() != "option"@.len() && n.len() != "alt"@.len() && n.len() != "shift"@.len() && n.len() != "fn"@.len() && n.len() != "function"@.len() && n.len() != "left_command"@.len() && n.len() != "left_cmd"@.len());
    } else if n == "right_cmd"@ {
        assert(n.len() != "hyper"@.len() && n.len() != "command"@.len() && n.len() != "cmd"@.len() && n.len() != "control"@.len() && n.len() != "ctrl"@.len() && n.len() != "option"@.len() && n.len() != "alt"@.len() && n.len() != "shift"@.len() && n.len() != "fn"@.len() && n.len() != "function"@.len() && n.len() != "left_command"@.len() && n.len() != "left_cmd"@.len() && n.len() != "right_command"@.len());
    } else if n == "left_control"@ {
        assert(n.len() != "hyper"@.len() && n.len() != "command"@.len() && n.len() != "cmd"@.len() && n.len() != "control"@.len() && n.len() != "ctrl"@.len() && n.len() != "option"@.len() && n.len() != "alt"@.len() && n.len() != "shift"@.len() && n.len() != "fn"@.len() && n.len() != "function"@.len() && n[7] != "left_command"@[7] && n.len() != "left_cmd"@.len() && n.len() != "right_command"@.len() && n.len() != "right_cmd"@.len());
    } else if n == "left_ctrl"@ {
        assert(n.len() != "hyper"@.len() && n.len() != "command"@.len() && n.len() != "cmd"@.len() && n.len() != "control"@.len() && n.len() != "ctrl"@.len() && n.len() != "option"@.len() && n.len() != "alt"@.len() && n.len() != "shift"@.len() && n.len() != "fn"@.len() && n.len() != "function"@.len() && n.len() != "left_command"@.len() && n.len() != "left_cmd"@.len() && n.len() != "right_command"@.len() && n[0] != "right_cmd"@[0] && n.len() != "left_control"@.len());
    } else if n == "right_control"@ {
        assert(n.len() != "hyper"@.len() && n.len() != "command"@.len() && n.len() != "cmd"@.len() && n.len() != "control"@.len() && n.len() != "ctrl"@.len() && n.len() != "option"@.len() && n.len() != "alt"@.len() && n.len() != "shift"@.len() && n.len() != "fn"@.len() && n.len() != "function"@.len() && n.len() != "left_command"@.len() && n.len() != "left_cmd"@.len() && n[8] != "right_command"@[8] && n.len() != "right_cmd"@.len() && n.len() != "left_control"@.len() && n.len() != "left_ctrl"@.len());
    } else if n == "right_ctrl"@ {
        assert(n.len() != "hyper"@.len() && n.len() != "command"@.len() && n.len() != "cmd"@.len() && n.len() != "control"@.len() && n.len() != "ctrl"@.len() && n.len() != "option"@.len() && n.len() != "alt"@.len() && n.len() != "shift"@.len() && n.len() != "fn"@.len() && n.len() != "function"@.len() && n.len() != "left_command"@.len() && n.len() != "left_cmd"@.len() && n.len() != "right_command"@.len() && n.len() != "right_cmd"@.len() && n.len() != "left_control"@.len() && n.len() != "left_ctrl"@.len() && n.len() != "right_control"@.len());
    } else if n == "left_option"@ {
        assert(n.len() != "hyper"@.len() && n.len() != "command"@.len() && n.len() != "cmd"@.len() && n.len() != "control"@.len() && n.len() != "ctrl"@.len() && n.len() != "option"@.len() && n.len() != "alt"@.len() && n.len() != "shift"@.len() && n.len() != "fn"@.len() && n.len() != "function"@.len() && n.len() != "left_command"@.len() && n.len() != "left_cmd"@.len() && n.len() != "right_command"@.len() && n.len() != "right_cmd"@.len() && n.len() != "left_control"@.len() && n.len() != "left_ctrl"@.len() && n.len() != "right_control"@.len() && n.len() != "right_ctrl"@.len());
    } else if n == "left_alt"@ {
        assert(n.len() != "hyper"@.len() && n.len() != "command"@.len() && n.len() != "cmd"@.len() && n.len() != "control"@.len() && n.len() != "ctrl"@.len() && n.len() != "option"@.len() && n.len() != "alt"@.len() && n.len() != "shift"@.len() && n.len() != "fn"@.len() && n[0] != "function"@[0] && n.len() != "left_command"@.len() && n[5] != "left_cmd"@[5] && n.len() != "right_command"@.len() && n.len() != "right_cmd"@.len() && n.len() != "left_control"@.len() && n.len() != "left_ctrl"@.len() && n.len() != "right_control"@.len() && n.len() != "right_ctrl"@.len() && n.len() != "left_option"@.len());
    } else if n == "right_option"@ {
        assert(n.len() != "hyper"@.len() && n.len() != "command"@.len() && n.len() != "cmd"@.len() && n.len() != "control"@.len() && n.len() != "ctrl"@.len() && n.len() != "option"@.len() && n.len() != "alt"@.len() && n.len() != "shift"@.len() && n.len() != "fn"@.len() && n.len() != "function"@.len() && n[0] != "left_command"@[0] && n.len() != "left_cmd"@.len() && n.len() != "right_command"@.len() && n.len() != "right_cmd"@.len() && n[0] != "left_control"@[0] && n.len() != "left_ctrl"@.len() && n.len() != "right_control"@.len() && n.len() != "right_ctrl"@.len() && n.len() != "left_option"@.len() && n.len() != "left_alt"@.len());
    } else if n == "right_alt"@ {
        assert(n.len() != "hyper"@.len() && n.len() != "command"@.len() && n.len() != "cmd"@.len() && n.len() != "control"@.len() && n.len() != "ctrl"@.len() && n.len() != "option"@.len() && n.len() != "alt"@.len() && n.len() != "shift"@.len() && n.len() != "fn"@.len() && n.len() != "function"@.len() && n.len() != "left_command"@.len() && n.len() != "left_cmd"@.len() && n.len() != "right_command"@.len() && n[6] != "right_cmd"@[6] && n.len() != "left_control"@.len() && n[0] != "left_ctrl"@[0] && n.len() != "right_control"@.len() && n.len() != "right_ctrl"@.len() && n.len() != "left_option"@.len() && n.len() != "left_alt"@.len() && n.len() != "right_option"@.len());
    }
}

/// Each modifier alias reads as the modifier it names: text that normalizes to an alias
/// parses to the same modifier as the name it stands for, and that modifier's own name is
/// the name it stands for.
pub proof fn lemma_modifier_aliases(s: Seq<char>, named: Seq<Seq<char>>)
    ensures
        normalize_name(s) == "cmd"@ ==> parse_modifier_spec(s, named) == parse_modifier_spec("command"@, named),
        normalize_name(s) == "ctrl"@ ==> parse_modifier_spec(s, named) == parse_modifier_spec("control"@, named),
        normalize_name(s) == "alt"@ ==> parse_modifier_spec(s, named) == parse_modifier_spec("option"@, named),
        normalize_name(s) == "function"@ ==> parse_modifier_spec(s, named) == parse_modifier_spec("fn"@, named),
        normalize_name(s) == "left_cmd"@ ==> parse_modifier_spec(s, named) == parse_modifier_spec(
            "left_command"@,
            named,
        ),
        normalize_name(s) == "right_cmd"@ ==> parse_modifier_spec(s, named) == parse_modifier_spec(
            "right_command"@,
            named,
        ),
        normalize_name(s) == "left_ctrl"@ ==> parse_modifier_spec(s, named) == parse_modifier_spec(
            "left_control"@,
            named,
        ),
        normalize_name(s) == "right_ctrl"@ ==> parse_modifier_spec(s, named) == parse_modifier_spec(
            "right_control"@,
            named,
        ),
        normalize_name(s) == "left_alt"@ ==> parse_modifier_spec(s, named) == parse_modifier_spec(
            "left_option"@,
            named,
        ),
        normalize_name(s) == "right_alt"@ ==> parse_modifier_spec(s, named) == parse_modifier_spec(
            "right_option"@,
            named,
        ),
        forall|canon: Seq<char>|
            #![trigger parse_modifier_spec(canon, named)]
            canon == "command"@ || canon == "control"@ || canon == "option"@ || canon == "fn"@ || canon
                == "left_command"@ || canon == "right_command"@ || canon == "left_control"@ || canon
                == "right_control"@ || canon == "left_option"@ || canon == "right_option"@ ==> (
            parse_modifier_spec(canon, named) matches Ok(m) && m.1.len() == 0 && modifier_name(m)
                == canon),
{
    lemma_builtin_rank_of(normalize_name(s));
    lemma_builtin_names((1nat, Seq::<char>::empty()));
    lemma_normal_name(modifier_name((1nat, Seq::<char>::empty())));
    lemma_builtin_names((2nat, Seq::<char>::empty()));
    lemma_normal_name(modifier_name((2nat, Seq::<char>::empty())));
    lemma_builtin_names((3nat, Seq::<char>::empty()));
    lemma_normal_name(modifier_name((3nat, Seq::<char>::empty())));
    lemma_builtin_names((4nat, Seq::<char>::empty()));
    lemma_normal_name(modifier_name((4nat, Seq::<char>::empty())));
    lemma_builtin_names((5nat, Seq::<char>::empty()));
    lemma_normal_name(modifier_name((5nat, Seq::<char>::empty())));
    lemma_builtin_names((6nat, Seq::<char>::empty()));
    lemma_normal_name(modifier_name((6nat, Seq::<char>::empty())));
    lemma_builtin_names((7nat, Seq::<char>::empty()));
    lemma_normal_name(modifier_name((7nat, Seq::<char>::empty())));
    lemma_builtin_names((8nat, Seq::<char>::empty()));
    lemma_normal_name(modifier_name((8nat, Seq::<char>::empty())));
    lemma_builtin_names((9nat, Seq::<char>::empty()));
    lemma_normal_name(modifier_name((9nat, Seq::<char>::empty())));
    lemma_builtin_names((13nat, Seq::<char>::empty()));
    lemma_normal_name(modifier_name((13nat, Seq::<char>::empty())));
    reveal_strlit("hyper");
    reveal_strlit("command");
    reveal_strlit("cmd");
    reveal_strlit("control");
    reveal_strlit("ctrl");
    reveal_strlit("option");
    reveal_strlit("alt");
    reveal_strlit("shift");
    reveal_strlit("fn");
    reveal_strlit("function");
    reveal_strlit("left_command");
    reveal_strlit("left_cmd");
    reveal_strlit("right_command");
    reveal_strlit("right_cmd");
    reveal_strlit("left_control");
    reveal_strlit("left_ctrl");
    reveal_strlit("right_control");
    reveal_strlit("right_ctrl");
    reveal_strlit("left_option");
    reveal_strlit("left_alt");
    reveal_strlit("right_option");
    reveal_strlit("right_alt");
    reveal_strlit("left_shift");
    reveal_strlit("right_shift");
    assert(modifier_name((1nat, Seq::<char>::empty())) == "command"@);
    assert(modifier_name((4nat, Seq::<char>::empty())) == "control"@);
    assert(modifier_name((7nat, Seq::<char>::empty())) == "option"@);
    assert(modifier_name((13nat, Seq::<char>::empty())) == "fn"@);
    assert(modifier_name((2nat, Seq::<char>::empty())) == "left_command"@);
    assert(modifier_name((3nat, Seq::<char>::empty())) == "right_command"@);
    assert(modifier_name((5nat, Seq::<char>::empty())) == "left_control"@);
    assert(modifier_name((6nat, Seq::<char>::empty())) == "right_control"@);
    assert(modifier_name((8nat, Seq::<char>::empty())) == "left_option"@);
    assert(modifier_name((9nat, Seq::<char>::empty())) == "right_option"@);
}

} // verus!
