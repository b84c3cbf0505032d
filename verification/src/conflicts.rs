//! Configured shortcuts that collide with well-known shortcuts of macOS and common apps.
use vstd::prelude::*;

use crate::config::{
    ActionView, CompiledConfig, action_kind, action_value, chord_matches, chord_matches_spec, hold_names,
    hold_names_spec,
};
use crate::key::{Chord, ChordView, names_of, parse_chord_spec};
use crate::cheatsheet::widest;
use crate::listener::{paint, painted};
use crate::text::{chars_eq, chars_of, decimal_text, owned, padded, push_decimal, push_padded, push_str};

verus! {

/// A well-known shortcut.
#[derive(Debug, PartialEq, Eq)]
pub struct CatalogEntry {
    pub chord: String,
    pub source: String,
    pub label: String,
    pub url: Option<String>,
}

/// A configured shortcut that collides with a well-known one.
#[derive(Debug, PartialEq, Eq)]
pub struct Conflict {
    pub shortcut: String,
    pub kind: &'static str,
    pub action: String,
    pub source: String,
    pub label: String,
    pub url: Option<String>,
}

pub open spec fn opt_view(o: Option<String>) -> Option<Seq<char>> {
    match o {
        Some(s) => Some(s@),
        None => None,
    }
}

/// A catalog entry as values: chord text, source, label and link.
pub type CatalogView = (Seq<char>, Seq<char>, Seq<char>, Option<Seq<char>>);

/// A conflict as values: shortcut, type, action, source, label and link.
pub type ConflictView = (Seq<char>, Seq<char>, Seq<char>, Seq<char>, Seq<char>, Option<Seq<char>>);

impl View for CatalogEntry {
    type V = CatalogView;

    open spec fn view(&self) -> CatalogView {
        (self.chord@, self.source@, self.label@, opt_view(self.url))
    }
}

impl View for Conflict {
    type V = ConflictView;

    open spec fn view(&self) -> ConflictView {
        (self.shortcut@, self.kind@, self.action@, self.source@, self.label@, opt_view(self.url))
    }
}

pub open spec fn catalog_view(c: Seq<CatalogEntry>) -> Seq<CatalogView> {
    c.map_values(|e: CatalogEntry| e@)
}

pub open spec fn conflicts_view(c: Seq<Conflict>) -> Seq<ConflictView> {
    c.map_values(|e: Conflict| e@)
}

/// The catalog's chords, in order; the first one that does not parse is the error.
pub open spec fn catalog_chords(cat: Seq<CatalogView>) -> Result<Seq<ChordView>, Seq<char>>
    decreases cat.len(),
{
    if cat.len() == 0 {
        Ok(Seq::empty())
    } else {
        match catalog_chords(cat.drop_last()) {
            Err(e) => Err(e),
            Ok(prev) => match parse_chord_spec(cat.last().0, Seq::empty()) {
                Err(_) => Err("invalid chord `"@ + cat.last().0 + "` in bundled shortcut catalog"@),
                Ok(c) => Ok(prev.push(c)),
            },
        }
    }
}

/// The conflicts of one configured shortcut: one per catalog entry whose chord matches it,
/// in catalog order, among the first `n` entries.
pub open spec fn shortcut_conflicts(
    text: Seq<char>,
    action: ActionView,
    configured: ChordView,
    cat: Seq<CatalogView>,
    chords: Seq<ChordView>,
    n: int,
) -> Seq<ConflictView>
    decreases n,
{
    if n <= 0 {
        Seq::empty()
    } else {
        let prev = shortcut_conflicts(text, action, configured, cat, chords, n - 1);
        if chord_matches_spec(chords[n - 1], configured) {
            prev.push((text, action_kind(action), action_value(action), cat[n - 1].1, cat[n - 1].2, cat[n - 1].3))
        } else {
            prev
        }
    }
}

/// All conflicts, by configured shortcut and then by catalog entry; the shortcuts are read
/// with the named modifiers in `named`.
pub open spec fn conflicts_spec(
    bindings: Seq<(Seq<char>, ActionView)>,
    named: Seq<Seq<char>>,
    cat: Seq<CatalogView>,
    chords: Seq<ChordView>,
) -> Seq<ConflictView>
    decreases bindings.len(),
{
    if bindings.len() == 0 {
        Seq::empty()
    } else {
        let b = bindings.last();
        conflicts_spec(bindings.drop_last(), named, cat, chords) + shortcut_conflicts(
            b.0,
            b.1,
            parse_chord_spec(b.0, named)->Ok_0,
            cat,
            chords,
            cat.len() as int,
        )
    }
}

/// Whether a catalog chord collides with a configured one: a generic catalog modifier
/// matches either physical side.
pub fn catalog_matches(catalog: &Chord, configured: &Chord) -> (r: bool)
    ensures
        r == chord_matches_spec(catalog@, configured@),
{
    chord_matches(catalog, configured)
}

fn clone_option(o: &Option<String>) -> (r: Option<String>)
    ensures
        opt_view(r) == opt_view(*o),
{
    match o {
        Some(s) => Some(s.clone()),
        None => None,
    }
}

/// The configured shortcuts that collide with catalog entries, by shortcut and then in
/// catalog order; an error when a catalog chord does not parse.
pub fn find_conflicts(config: &CompiledConfig, catalog: &Vec<CatalogEntry>) -> (r: Result<Vec<Conflict>, String>)
    requires
        forall|i: int|
            0 <= i < config.bindings@.len() ==> (#[trigger] parse_chord_spec(
                config.bindings@[i].0,
                hold_names_spec(config.dual_roles@),
            )) is Ok,
    ensures
        match catalog_chords(catalog_view(catalog@)) {
            Err(e) => r matches Err(x) && x@ == e,
            Ok(chords) => r matches Ok(v) && conflicts_view(v@) == conflicts_spec(
                config.bindings@,
                hold_names_spec(config.dual_roles@),
                catalog_view(catalog@),
                chords,
            ),
        },
{
    let ghost cat = catalog_view(catalog@);
    let mut chords: Vec<Chord> = Vec::new();
    let mut i: usize = 0;
    proof {
        assert(cat.take(0) =~= Seq::<CatalogView>::empty());
        assert(chords@.map_values(|c: Chord| c@) =~= Seq::<ChordView>::empty());
    }
    while i < catalog.len()
        invariant
            i <= catalog.len(),
            chords@.len() == i,
            cat == catalog_view(catalog@),
            catalog_chords(cat.take(i as int)) == Ok::<Seq<ChordView>, Seq<char>>(
                chords@.map_values(|c: Chord| c@),
            ),
        decreases catalog.len() - i,
    {
        proof {
            assert(cat.take(i + 1).drop_last() =~= cat.take(i as int));
            assert(cat.take(i + 1).last() == catalog@[i as int]@);
        }
        match Chord::parse(catalog[i].chord.as_str()) {
            Ok(c) => {
                let ghost old = chords@.map_values(|c: Chord| c@);
                let ghost seen = c@;
                chords.push(c);
                proof {
                    assert(chords@.map_values(|c: Chord| c@) =~= old.push(seen));
                }
            },
            Err(_) => {
                proof {
                    lemma_catalog_error_stays(cat, i + 1);
                }
                let mut msg = owned("invalid chord `");
                push_str(&mut msg, catalog[i].chord.as_str());
                push_str(&mut msg, "` in bundled shortcut catalog");
                return Err(msg);
            },
        }
        i = i + 1;
    }
    proof {
        assert(cat.take(catalog.len() as int) =~= cat);
    }
    let ghost cv = chords@.map_values(|c: Chord| c@);
    let named = hold_names(&config.dual_roles);
    let ghost nv = hold_names_spec(config.dual_roles@);
    let entries = config.bindings.entries();
    let ghost bs = config.bindings@;
    let mut out: Vec<Conflict> = Vec::new();
    let mut j: usize = 0;
    while j < entries.len()
        invariant
            j <= entries.len(),
            entries@.map_values(|e: (String, crate::config::Action)| (e.0@, e.1@)) == bs,
            bs == config.bindings@,
            cv == chords@.map_values(|c: Chord| c@),
            cat == catalog_view(catalog@),
            cv.len() == cat.len(),
            nv == names_of(named@),
            forall|x: int| 0 <= x < bs.len() ==> (#[trigger] parse_chord_spec(bs[x].0, nv)) is Ok,
            conflicts_view(out@) == conflicts_spec(bs.take(j as int), nv, cat, cv),
        decreases entries.len() - j,
    {
        proof {
            assert(bs[j as int] == (entries@[j as int].0@, entries@[j as int].1@));
            assert(parse_chord_spec(bs[j as int].0, nv) is Ok);
        }
        let configured = match Chord::parse_with(entries[j].0.as_str(), named.as_slice()) {
            Ok(c) => c,
            Err(_) => {
                return Err(owned("invalid configured chord"));
            },
        };
        let (kind, value) = entries[j].1.type_and_value();
        let ghost before = conflicts_view(out@);
        let mut k: usize = 0;
        while k < catalog.len()
            invariant
                k <= catalog.len(),
                j < entries.len(),
                cv == chords@.map_values(|c: Chord| c@),
                cat == catalog_view(catalog@),
                cv.len() == cat.len(),
                conflicts_view(out@) == before + shortcut_conflicts(
                    entries@[j as int].0@,
                    entries@[j as int].1@,
                    configured@,
                    cat,
                    cv,
                    k as int,
                ),
                kind@ == action_kind(entries@[j as int].1@),
                value@ == action_value(entries@[j as int].1@),
            decreases catalog.len() - k,
        {
            proof {
                assert(cv[k as int] == chords@[k as int]@);
                assert(cat[k as int] == catalog@[k as int]@);
            }
            let ghost old_out = conflicts_view(out@);
            if catalog_matches(&chords[k], &configured) {
                out.push(
                    Conflict {
                        shortcut: entries[j].0.clone(),
                        kind,
                        action: value.clone(),
                        source: catalog[k].source.clone(),
                        label: catalog[k].label.clone(),
                        url: clone_option(&catalog[k].url),
                    },
                );
                proof {
                    assert(conflicts_view(out@) =~= old_out.push(out@[out@.len() - 1]@));
                }
            }
            k = k + 1;
        }
        proof {
            assert(bs.take(j + 1).drop_last() =~= bs.take(j as int));
            assert(bs.take(j + 1).last() == bs[j as int]);
            assert(conflicts_view(out@) =~= conflicts_spec(bs.take(j + 1), nv, cat, cv));
        }
        j = j + 1;
    }
    proof {
        assert(bs.take(entries.len() as int) =~= bs);
    }
    Ok(out)
}

proof fn lemma_catalog_error_stays(cat: Seq<CatalogView>, k: int)
    requires
        0 < k <= cat.len(),
        catalog_chords(cat.take(k)) is Err,
    ensures
        catalog_chords(cat) == catalog_chords(cat.take(k)),
    decreases cat.len() - k,
{
    if k < cat.len() {
        assert(cat.take(k + 1).drop_last() =~= cat.take(k));
        lemma_catalog_error_stays(cat, k + 1);
    } else {
        assert(cat.take(k) =~= cat);
    }
}


// ---------------------------------------------------------------------------
// The conflict table
// ---------------------------------------------------------------------------

/// How a catalog source is written for people.
pub open spec fn source_display(source: Seq<char>) -> Seq<char> {
    if source == "macos"@ {
        "macOS"@
    } else if source == "safari"@ {
        "Safari"@
    } else if source == "chrome"@ {
        "Chrome"@
    } else if source == "finder"@ {
        "Finder"@
    } else if source == "terminal"@ {
        "Terminal"@
    } else if source == "ghostty"@ {
        "Ghostty"@
    } else if source == "slack"@ {
        "Slack"@
    } else {
        source
    }
}

/// How a catalog source is written for people.
pub fn source_display_name(source: &str) -> (r: String)
    ensures
        r@ == source_display(source@),
{
    let names: [(&str, &str); 7] = [
        ("macos", "macOS"),
        ("safari", "Safari"),
        ("chrome", "Chrome"),
        ("finder", "Finder"),
        ("terminal", "Terminal"),
        ("ghostty", "Ghostty"),
        ("slack", "Slack"),
    ];
    let s = chars_of(source);
    let mut i: usize = 0;
    while i < 7
        invariant
            i <= 7,
            s@ == source@,
            names@ == seq![
                ("macos", "macOS"),
                ("safari", "Safari"),
                ("chrome", "Chrome"),
                ("finder", "Finder"),
                ("terminal", "Terminal"),
                ("ghostty", "Ghostty"),
                ("slack", "Slack"),
            ],
            forall|j: int| 0 <= j < i ==> source@ != (#[trigger] names@[j]).0@,
        decreases 7 - i,
    {
        let (raw, shown) = names[i];
        if chars_eq(s.as_slice(), chars_of(raw).as_slice()) {
            return owned(shown);
        }
        i = i + 1;
    }
    proof {
        assert(source@ != names@[0].0@);
        assert(source@ != names@[1].0@);
        assert(source@ != names@[2].0@);
        assert(source@ != names@[3].0@);
        assert(source@ != names@[4].0@);
        assert(source@ != names@[5].0@);
        assert(source@ != names@[6].0@);
    }
    owned(source)
}

/// What a conflict collides with: the source and the label.
pub open spec fn conflicts_with(c: ConflictView) -> Seq<char> {
    source_display(c.3) + " "@ + c.4
}

/// One row: shortcut cyan, type yellow, action green when colored, then what it collides with.
pub open spec fn conflict_row(c: ConflictView, sw: nat, kw: nat, aw: nat, color: bool) -> Seq<char> {
    painted(padded(c.0, sw), "36"@, color) + "  "@ + painted(padded(c.1, kw), "33"@, color) + "  "@
        + painted(padded(c.2, aw), "32"@, color) + "  "@ + conflicts_with(c) + "\n"@
}

pub open spec fn conflict_rows(cs: Seq<ConflictView>, sw: nat, kw: nat, aw: nat, color: bool) -> Seq<char>
    decreases cs.len(),
{
    if cs.len() == 0 {
        Seq::empty()
    } else {
        conflict_rows(cs.drop_last(), sw, kw, aw, color) + conflict_row(cs.last(), sw, kw, aw, color)
    }
}

/// The table `kiwi list --conflicts` prints: a notice when there are none; otherwise a
/// count, a header and one aligned row per conflict.
pub open spec fn conflicts_table_spec(cs: Seq<ConflictView>, color: bool) -> Seq<char> {
    if cs.len() == 0 {
        "No shortcut conflicts found.\n"@
    } else {
        let sw = widest(cs.map_values(|c: ConflictView| c.0), 8);
        let kw = widest(cs.map_values(|c: ConflictView| c.1), 4);
        let aw = widest(cs.map_values(|c: ConflictView| c.2), 6);
        let noun = if cs.len() == 1 {
            "conflict"@
        } else {
            "conflicts"@
        };
        painted(decimal_text(cs.len()) + " "@ + noun, "1;31"@, color) + "\n\n"@ + painted(
            padded("SHORTCUT"@, sw) + "  "@ + padded("TYPE"@, kw) + "  "@ + padded("ACTION"@, aw)
                + "  CONFLICTS WITH"@,
            "1"@,
            color,
        ) + "\n"@ + conflict_rows(cs, sw, kw, aw, color)
    }
}

fn push_conflict_row(out: &mut String, c: &Conflict, sw: usize, kw: usize, aw: usize, color: bool)
    ensures
        final(out)@ == old(out)@ + conflict_row(c@, sw as nat, kw as nat, aw as nat, color),
{
    let mut cell = String::new();
    push_padded(&mut cell, c.shortcut.as_str(), sw);
    let cell = paint(cell.as_str(), "36", color);
    let mut kind = String::new();
    push_padded(&mut kind, c.kind, kw);
    let kind = paint(kind.as_str(), "33", color);
    let mut action = String::new();
    push_padded(&mut action, c.action.as_str(), aw);
    let action = paint(action.as_str(), "32", color);
    let source = source_display_name(c.source.as_str());
    push_str(out, cell.as_str());
    push_str(out, "  ");
    push_str(out, kind.as_str());
    push_str(out, "  ");
    push_str(out, action.as_str());
    push_str(out, "  ");
    push_str(out, source.as_str());
    push_str(out, " ");
    push_str(out, c.label.as_str());
    push_str(out, "\n");
    proof {
        assert(out@ =~= old(out)@ + conflict_row(c@, sw as nat, kw as nat, aw as nat, color));
    }
}

/// The width of a column: the widest of its texts, and at least `floor`.
fn column_width(cs: &Vec<Conflict>, column: u8, floor: usize) -> (r: usize)
    requires
        column < 3,
    ensures
        r as nat == widest(
            conflicts_view(cs@).map_values(
                |c: ConflictView|
                    if column == 0 {
                        c.0
                    } else if column == 1 {
                        c.1
                    } else {
                        c.2
                    },
            ),
            floor as nat,
        ),
{
    let ghost texts = conflicts_view(cs@).map_values(
        |c: ConflictView|
            if column == 0 {
                c.0
            } else if column == 1 {
                c.1
            } else {
                c.2
            },
    );
    let mut w = floor;
    let mut i: usize = 0;
    while i < cs.len()
        invariant
            i <= cs.len(),
            column < 3,
            texts == conflicts_view(cs@).map_values(
                |c: ConflictView|
                    if column == 0 {
                        c.0
                    } else if column == 1 {
                        c.1
                    } else {
                        c.2
                    },
            ),
            w as nat == widest(texts.take(i as int), floor as nat),
        decreases cs.len() - i,
    {
        let n = if column == 0 {
            chars_of(cs[i].shortcut.as_str()).len()
        } else if column == 1 {
            chars_of(cs[i].kind).len()
        } else {
            chars_of(cs[i].action.as_str()).len()
        };
        proof {
            assert(texts.take(i + 1).drop_last() =~= texts.take(i as int));
            assert(texts.take(i + 1).last() == texts[i as int]);
            assert(conflicts_view(cs@)[i as int] == cs@[i as int]@);
        }
        if n > w {
            w = n;
        }
        i = i + 1;
    }
    proof {
        assert(texts.take(cs.len() as int) =~= texts);
    }
    w
}

/// The table `kiwi list --conflicts` prints.
pub fn conflicts_table(conflicts: &Vec<Conflict>, color: bool) -> (r: String)
    ensures
        r@ == conflicts_table_spec(conflicts_view(conflicts@), color),
{
    let ghost cs = conflicts_view(conflicts@);
    if conflicts.len() == 0 {
        return owned("No shortcut conflicts found.\n");
    }
    let sw = column_width(conflicts, 0, 8);
    let kw = column_width(conflicts, 1, 4);
    let aw = column_width(conflicts, 2, 6);
    proof {
        assert(cs.map_values(|c: ConflictView| c.0) =~= cs.map_values(
            |c: ConflictView|
                if 0u8 == 0 {
                    c.0
                } else if 0u8 == 1 {
                    c.1
                } else {
                    c.2
                },
        ));
        assert(cs.map_values(|c: ConflictView| c.1) =~= cs.map_values(
            |c: ConflictView|
                if 1u8 == 0 {
                    c.0
                } else if 1u8 == 1 {
                    c.1
                } else {
                    c.2
                },
        ));
        assert(cs.map_values(|c: ConflictView| c.2) =~= cs.map_values(
            |c: ConflictView|
                if 2u8 == 0 {
                    c.0
                } else if 2u8 == 1 {
                    c.1
                } else {
                    c.2
                },
        ));
    }
    let mut count = String::new();
    push_decimal(&mut count, conflicts.len() as u64);
    if conflicts.len() == 1 {
        push_str(&mut count, " conflict");
    } else {
        push_str(&mut count, " conflicts");
    }
    proof {
        reveal_strlit(" conflict");
        reveal_strlit(" conflicts");
        reveal_strlit("conflict");
        reveal_strlit("conflicts");
        reveal_strlit(" ");
        assert(count@ =~= decimal_text(cs.len()) + " "@ + if cs.len() == 1 {
            "conflict"@
        } else {
            "conflicts"@
        });
    }
    let mut out = paint(count.as_str(), "1;31", color);
    push_str(&mut out, "\n\n");
    let mut header = String::new();
    push_padded(&mut header, "SHORTCUT", sw);
    push_str(&mut header, "  ");
    push_padded(&mut header, "TYPE", kw);
    push_str(&mut header, "  ");
    push_padded(&mut header, "ACTION", aw);
    push_str(&mut header, "  CONFLICTS WITH");
    let header = paint(header.as_str(), "1", color);
    push_str(&mut out, header.as_str());
    push_str(&mut out, "\n");
    let ghost head = out@;
    let mut j: usize = 0;
    while j < conflicts.len()
        invariant
            j <= conflicts.len(),
            cs == conflicts_view(conflicts@),
            out@ == head + conflict_rows(cs.take(j as int), sw as nat, kw as nat, aw as nat, color),
        decreases conflicts.len() - j,
    {
        push_conflict_row(&mut out, &conflicts[j], sw, kw, aw, color);
        proof {
            assert(cs.take(j + 1).drop_last() =~= cs.take(j as int));
            assert(cs.take(j + 1).last() == conflicts@[j as int]@);
        }
        j = j + 1;
    }
    proof {
        assert(cs.take(conflicts.len() as int) =~= cs);
    }
    out
}

} // verus!
