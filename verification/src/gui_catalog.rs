//! The catalog of the legacy CGX (GraphiX) sources and how far their
//! migration has come.
use vstd::prelude::*;
use crate::catalog::{extension_of, ascii_lower_seq, lower_extension, chars_are, line_count,
    line_count_of, rust_ident, to_rust_ident};
use crate::order::{lex_lt, lex_less, lemma_lex_transitive, lemma_lex_total, lemma_lex_irreflexive, first_after, lemma_first_after_at};
use crate::text::{chars_of, owned, str_eq};

verus! {

broadcast use vstd::string::group_string_axioms;

/// Source language of a legacy GUI file.
#[derive(Debug, Clone, Copy, PartialEq, Eq, PartialOrd, Ord, Hash, Structural)]
pub enum LegacyGuiLanguage {
    C,
    Cpp,
    Header,
    Other,
}

/// One legacy GUI source file.
#[derive(Debug, Clone, PartialEq, Eq)]
pub struct LegacyGuiSourceUnit {
    pub legacy_rel_path: String,
    pub module_name: String,
    pub language: LegacyGuiLanguage,
    pub line_count: usize,
}

/// Migration progress over the GUI catalog.
#[derive(Debug, Clone, PartialEq, Eq)]
pub struct GuiMigrationReport {
    pub total_units: usize,
    pub ported_units: usize,
    pub pending_units: usize,
    /// Number of files per language, for each language that occurs, in
    /// the order `C`, `Cpp`, `Header`, `Other`: a list ordered by key,
    /// whose contents the contracts state entry by entry.
    pub by_language: Vec<(LegacyGuiLanguage, usize)>,
}

/// Abstract view of a catalog entry.
pub struct GuiUnitView {
    pub path: Seq<char>,
    pub module: Seq<char>,
    pub language: LegacyGuiLanguage,
    pub line_count: nat,
}

impl View for LegacyGuiSourceUnit {
    type V = GuiUnitView;

    open spec fn view(&self) -> GuiUnitView {
        GuiUnitView {
            path: self.legacy_rel_path@,
            module: self.module_name@,
            language: self.language,
            line_count: self.line_count as nat,
        }
    }
}

/// View of a report's language tally.
pub open spec fn tally_view(v: Seq<(LegacyGuiLanguage, usize)>) -> Seq<(LegacyGuiLanguage, nat)> {
    v.map_values(|p: (LegacyGuiLanguage, usize)| (p.0, p.1 as nat))
}

/// Language of a file by the (ASCII case-insensitive) extension of its path.
pub open spec fn gui_language_of(path: Seq<char>) -> LegacyGuiLanguage {
    let e = ascii_lower_seq(extension_of(path));
    if e == "c"@ {
        LegacyGuiLanguage::C
    } else if e == "cpp"@ || e == "cxx"@ || e == "cc"@ {
        LegacyGuiLanguage::Cpp
    } else if e == "h"@ || e == "hpp"@ {
        LegacyGuiLanguage::Header
    } else {
        LegacyGuiLanguage::Other
    }
}

/// Language of a GUI source file (see `gui_language_of`).
pub fn detect_gui_language(path: &str) -> (r: LegacyGuiLanguage)
    ensures
        r == gui_language_of(path@),
{
    let e = lower_extension(path);
    if chars_are(&e, "c") {
        LegacyGuiLanguage::C
    } else if chars_are(&e, "cpp") || chars_are(&e, "cxx") || chars_are(&e, "cc") {
        LegacyGuiLanguage::Cpp
    } else if chars_are(&e, "h") || chars_are(&e, "hpp") {
        LegacyGuiLanguage::Header
    } else {
        LegacyGuiLanguage::Other
    }
}

/// The catalog entry of the file at `path` with contents `bytes`.
pub open spec fn gui_unit_of(path: Seq<char>, bytes: Seq<u8>) -> GuiUnitView {
    GuiUnitView {
        path: path,
        module: rust_ident(path),
        language: gui_language_of(path),
        line_count: line_count_of(bytes),
    }
}

/// The catalog entry of one file.
pub fn gui_unit_from_file(rel_path: &str, bytes: &[u8]) -> (r: LegacyGuiSourceUnit)
    requires
        bytes@.len() < usize::MAX,
    ensures
        r@ == gui_unit_of(rel_path@, bytes@),
{
    LegacyGuiSourceUnit {
        legacy_rel_path: owned(rel_path),
        module_name: to_rust_ident(rel_path),
        language: detect_gui_language(rel_path),
        line_count: line_count(bytes),
    }
}

/// Entries in ascending order of path.
pub open spec fn sorted_by_path(s: Seq<GuiUnitView>) -> bool {
    forall|i: int, j: int| 0 <= i < j < s.len() ==> !lex_lt(#[trigger] s[j].path, #[trigger] s[i].path)
}

/// Catalog entries of the given files.
pub open spec fn gui_units_of(files: Seq<(String, Vec<u8>)>) -> Seq<GuiUnitView> {
    files.map_values(|f: (String, Vec<u8>)| gui_unit_of(f.0@, f.1@))
}

proof fn lemma_insert_sorted(s: Seq<GuiUnitView>, p: int, x: GuiUnitView)
    requires
        sorted_by_path(s),
        0 <= p <= s.len(),
        forall|q: int| 0 <= q < p ==> !lex_lt(x.path, #[trigger] s[q].path),
        p < s.len() ==> lex_lt(x.path, s[p].path),
    ensures
        sorted_by_path(s.insert(p, x)),
{
    let t = s.insert(p, x);
    assert forall|i: int, j: int| 0 <= i < j < t.len() implies !lex_lt(#[trigger] t[j].path, #[trigger] t[i].path) by {
        if i == p {
            if lex_lt(t[j].path, x.path) {
                if j - 1 > p {
                    assert(!lex_lt(s[j - 1].path, s[p].path));
                    lemma_lex_transitive(s[j - 1].path, x.path, s[p].path);
                } else {
                    lemma_lex_transitive(s[p].path, x.path, s[p].path);
                    lemma_lex_irreflexive(s[p].path);
                }
            }
        } else if j == p {
            assert(!lex_lt(x.path, s[i].path));
        } else if i < p && j > p {
            assert(!lex_lt(s[j - 1].path, s[i].path));
        }
    }
}

/// Paths of catalog entries.
pub open spec fn gui_unit_paths(us: Seq<GuiUnitView>) -> Seq<Seq<char>> {
    us.map_values(|u: GuiUnitView| u.path)
}

/// Entries sorted by path, equal paths in the order given: each entry in
/// turn is placed after the entries whose paths do not come after its own.
pub open spec fn sorted_gui_units(us: Seq<GuiUnitView>) -> Seq<GuiUnitView>
    decreases us.len(),
{
    if us.len() == 0 {
        Seq::empty()
    } else {
        let s = sorted_gui_units(us.drop_last());
        s.insert(first_after(gui_unit_paths(s), us.last().path), us.last())
    }
}

/// The catalog of the given files (relative path and contents), in
/// ascending order of path (see `sorted_gui_units`).
pub fn legacy_gui_units(files: &Vec<(String, Vec<u8>)>) -> (r: Vec<LegacyGuiSourceUnit>)
    requires
        forall|i: int| 0 <= i < files@.len() ==> (#[trigger] files@[i]).1@.len() < usize::MAX,
    ensures
        r@.map_values(|u: LegacyGuiSourceUnit| u@) == sorted_gui_units(gui_units_of(files@)),
        sorted_by_path(r@.map_values(|u: LegacyGuiSourceUnit| u@)),
        r@.map_values(|u: LegacyGuiSourceUnit| u@).to_multiset() == gui_units_of(files@).to_multiset(),
{
    broadcast use vstd::seq_lib::group_to_multiset_ensures;
    let mut out: Vec<LegacyGuiSourceUnit> = Vec::new();
    let mut i: usize = 0;
    while i < files.len()
        invariant
            i <= files@.len(),
            forall|k: int| 0 <= k < files@.len() ==> (#[trigger] files@[k]).1@.len() < usize::MAX,
            out@.map_values(|u: LegacyGuiSourceUnit| u@) == sorted_gui_units(gui_units_of(files@).subrange(0, i as int)),
            sorted_by_path(out@.map_values(|u: LegacyGuiSourceUnit| u@)),
            out@.map_values(|u: LegacyGuiSourceUnit| u@).to_multiset()
                == gui_units_of(files@).subrange(0, i as int).to_multiset(),
        decreases files.len() - i,
    {
        let f = &files[i];
        let unit = gui_unit_from_file(f.0.as_str(), f.1.as_slice());
        let key = chars_of(unit.legacy_rel_path.as_str());
        let ghost ov = out@.map_values(|u: LegacyGuiSourceUnit| u@);
        let mut p: usize = 0;
        let mut stop = false;
        while !stop && p < out.len()
            invariant
                ov == out@.map_values(|u: LegacyGuiSourceUnit| u@),
                key@ == unit@.path,
                p <= out@.len(),
                forall|q: int| 0 <= q < p ==> !lex_lt(key@, #[trigger] ov[q].path),
                stop ==> p < out@.len() && lex_lt(key@, ov[p as int].path),
            decreases out.len() - p + (if stop { 0int } else { 1int }),
        {
            let other = chars_of(out[p].legacy_rel_path.as_str());
            if lex_less(key.as_slice(), other.as_slice()) {
                stop = true;
            } else {
                p += 1;
            }
        }
        proof {
            lemma_insert_sorted(ov, p as int, unit@);
            let ps = gui_unit_paths(ov);
            assert forall|q: int| 0 <= q < p implies !lex_lt(unit@.path, #[trigger] ps[q]) by {
                assert(ps[q] == ov[q].path);
            }
            lemma_first_after_at(ps, unit@.path, p as int);
            let sub = gui_units_of(files@).subrange(0, i + 1);
            assert(sub.drop_last() =~= gui_units_of(files@).subrange(0, i as int));
            assert(sub.last() == unit@);
        }
        out.insert(p, unit);
        proof {
            let nv = out@.map_values(|u: LegacyGuiSourceUnit| u@);
            assert(nv =~= ov.insert(p as int, unit@));
            assert(unit@ == gui_units_of(files@)[i as int]);
            assert(gui_units_of(files@).subrange(0, i + 1)
                =~= gui_units_of(files@).subrange(0, i as int).push(unit@));
            vstd::seq_lib::to_multiset_insert(ov, p as int, unit@);
            vstd::seq_lib::to_multiset_build(gui_units_of(files@).subrange(0, i as int), unit@);
        }
        i += 1;
    }
    assert(gui_units_of(files@).subrange(0, files@.len() as int) =~= gui_units_of(files@));
    out
}

/// The GUI sources that have been ported, by legacy path.
pub open spec fn ported_gui_paths() -> Seq<Seq<char>> {
    seq![
        "compare.c"@,
        "compareStrings.c"@,
        "strfind.c"@,
        "checkIfNumber.c"@,
        "v_add.c"@,
        "v_prod.c"@,
        "v_result.c"@,
        "v_sprod.c"@,
        "v_norm.c"@,
        "v_angle.c"@,
        "p_angle.c"@,
    ]
}

/// The ported GUI sources (see `ported_gui_paths`).
pub fn ported_gui_units() -> (r: Vec<&'static str>)
    ensures
        r@.map_values(|s: &str| s@) == ported_gui_paths(),
{
    let r: Vec<&'static str> = vec![
        "compare.c",
        "compareStrings.c",
        "strfind.c",
        "checkIfNumber.c",
        "v_add.c",
        "v_prod.c",
        "v_result.c",
        "v_sprod.c",
        "v_norm.c",
        "v_angle.c",
        "p_angle.c",
    ];
    assert(r@.map_values(|s: &str| s@) =~= ported_gui_paths());
    r
}

/// Whether the legacy GUI file at `legacy_rel_path` has been ported.
pub fn is_ported_gui_unit(legacy_rel_path: &str) -> (r: bool)
    ensures
        r == ported_gui_paths().contains(legacy_rel_path@),
{
    let list = ported_gui_units();
    let ghost lv = list@.map_values(|s: &str| s@);
    let mut i: usize = 0;
    while i < list.len()
        invariant
            lv == list@.map_values(|s: &str| s@),
            lv == ported_gui_paths(),
            i <= list@.len(),
            forall|j: int| 0 <= j < i ==> lv[j] != legacy_rel_path@,
        decreases list.len() - i,
    {
        if str_eq(list[i], legacy_rel_path) {
            assert(lv[i as int] == legacy_rel_path@);
            return true;
        }
        i += 1;
    }
    false
}

/// Number of entries in `language`.
pub open spec fn language_count(us: Seq<GuiUnitView>, language: LegacyGuiLanguage) -> nat
    decreases us.len(),
{
    if us.len() == 0 {
        0
    } else {
        language_count(us.drop_last(), language) + if us.last().language == language { 1nat } else { 0nat }
    }
}

/// Number of entries whose path has been ported.
pub open spec fn ported_count(us: Seq<GuiUnitView>) -> nat
    decreases us.len(),
{
    if us.len() == 0 {
        0
    } else {
        ported_count(us.drop_last()) + if ported_gui_paths().contains(us.last().path) { 1nat } else { 0nat }
    }
}

/// `(language, n)` when `n` is positive, else nothing.
pub open spec fn present(language: LegacyGuiLanguage, n: nat) -> Seq<(LegacyGuiLanguage, nat)> {
    if n > 0 {
        seq![(language, n)]
    } else {
        seq![]
    }
}

/// The language tally of a catalog.
pub open spec fn language_tally(us: Seq<GuiUnitView>) -> Seq<(LegacyGuiLanguage, nat)> {
    present(LegacyGuiLanguage::C, language_count(us, LegacyGuiLanguage::C))
        + present(LegacyGuiLanguage::Cpp, language_count(us, LegacyGuiLanguage::Cpp))
        + present(LegacyGuiLanguage::Header, language_count(us, LegacyGuiLanguage::Header))
        + present(LegacyGuiLanguage::Other, language_count(us, LegacyGuiLanguage::Other))
}

/// Every entry has exactly one language, and no more entries are ported
/// than there are.
pub proof fn lemma_gui_counts(us: Seq<GuiUnitView>)
    ensures
        language_count(us, LegacyGuiLanguage::C) + language_count(us, LegacyGuiLanguage::Cpp)
            + language_count(us, LegacyGuiLanguage::Header)
            + language_count(us, LegacyGuiLanguage::Other) == us.len(),
        ported_count(us) <= us.len(),
    decreases us.len(),
{
    if us.len() > 0 {
        lemma_gui_counts(us.drop_last());
    }
}

fn push_present(v: &mut Vec<(LegacyGuiLanguage, usize)>, language: LegacyGuiLanguage, n: usize)
    ensures
        tally_view(final(v)@) == tally_view(old(v)@) + present(language, n as nat),
{
    if n > 0 {
        v.push((language, n));
        assert(tally_view(final(v)@) =~= tally_view(old(v)@) + present(language, n as nat));
    } else {
        assert(tally_view(final(v)@) =~= tally_view(old(v)@) + present(language, n as nat));
    }
}

/// Migration progress over a GUI catalog: total, ported and pending file
/// counts and the number of files per language.
pub fn gui_migration_report(units: &Vec<LegacyGuiSourceUnit>) -> (r: GuiMigrationReport)
    ensures
        r.total_units == units@.len(),
        r.ported_units == ported_count(units@.map_values(|u: LegacyGuiSourceUnit| u@)),
        r.pending_units == r.total_units - r.ported_units,
        r.total_units == r.ported_units + r.pending_units,
        tally_view(r.by_language@) == language_tally(units@.map_values(|u: LegacyGuiSourceUnit| u@)),
{
    let ghost us = units@.map_values(|u: LegacyGuiSourceUnit| u@);
    let mut c: usize = 0;
    let mut cpp: usize = 0;
    let mut h: usize = 0;
    let mut other: usize = 0;
    let mut ported: usize = 0;
    let mut i: usize = 0;
    while i < units.len()
        invariant
            us == units@.map_values(|u: LegacyGuiSourceUnit| u@),
            i <= units@.len(),
            c == language_count(us.subrange(0, i as int), LegacyGuiLanguage::C),
            cpp == language_count(us.subrange(0, i as int), LegacyGuiLanguage::Cpp),
            h == language_count(us.subrange(0, i as int), LegacyGuiLanguage::Header),
            other == language_count(us.subrange(0, i as int), LegacyGuiLanguage::Other),
            ported == ported_count(us.subrange(0, i as int)),
        decreases units.len() - i,
    {
        proof {
            assert(us.subrange(0, i + 1).drop_last() =~= us.subrange(0, i as int));
            lemma_gui_counts(us.subrange(0, i as int));
        }
        let u = &units[i];
        match u.language {
            LegacyGuiLanguage::C => { c += 1; },
            LegacyGuiLanguage::Cpp => { cpp += 1; },
            LegacyGuiLanguage::Header => { h += 1; },
            LegacyGuiLanguage::Other => { other += 1; },
        }
        if is_ported_gui_unit(u.legacy_rel_path.as_str()) {
            ported += 1;
        }
        i += 1;
    }
    proof {
        assert(us.subrange(0, us.len() as int) =~= us);
        lemma_gui_counts(us);
    }
    let mut by_language: Vec<(LegacyGuiLanguage, usize)> = Vec::new();
    push_present(&mut by_language, LegacyGuiLanguage::C, c);
    push_present(&mut by_language, LegacyGuiLanguage::Cpp, cpp);
    push_present(&mut by_language, LegacyGuiLanguage::Header, h);
    push_present(&mut by_language, LegacyGuiLanguage::Other, other);
    assert(tally_view(seq![]) =~= Seq::<(LegacyGuiLanguage, nat)>::empty());
    let total = units.len();
    GuiMigrationReport {
        total_units: total,
        ported_units: ported,
        pending_units: total - ported,
        by_language,
    }
}

/// Sum of the counts of a language tally.
pub open spec fn tally_sum(t: Seq<(LegacyGuiLanguage, nat)>) -> nat
    decreases t.len(),
{
    if t.len() == 0 {
        0
    } else {
        tally_sum(t.drop_last()) + t.last().1
    }
}

proof fn lemma_tally_sum_append(a: Seq<(LegacyGuiLanguage, nat)>, b: Seq<(LegacyGuiLanguage, nat)>)
    ensures
        tally_sum(a + b) == tally_sum(a) + tally_sum(b),
    decreases b.len(),
{
    if b.len() > 0 {
        lemma_tally_sum_append(a, b.drop_last());
        assert((a + b).drop_last() =~= a + b.drop_last());
    } else {
        assert(a + b =~= a);
    }
}

proof fn lemma_tally_sum_present(l: LegacyGuiLanguage, n: nat)
    ensures
        tally_sum(present(l, n)) == n,
{
    reveal_with_fuel(tally_sum, 2);
    if n > 0 {
        assert(present(l, n).drop_last() =~= Seq::<(LegacyGuiLanguage, nat)>::empty());
    }
}

/// The per-language counts of a report add up to its total.
pub proof fn lemma_language_tally_total(us: Seq<GuiUnitView>)
    ensures
        tally_sum(language_tally(us)) == us.len(),
{
    lemma_gui_counts(us);
    let c = present(LegacyGuiLanguage::C, language_count(us, LegacyGuiLanguage::C));
    let p = present(LegacyGuiLanguage::Cpp, language_count(us, LegacyGuiLanguage::Cpp));
    let h = present(LegacyGuiLanguage::Header, language_count(us, LegacyGuiLanguage::Header));
    let o = present(LegacyGuiLanguage::Other, language_count(us, LegacyGuiLanguage::Other));
    lemma_tally_sum_append(c, p);
    lemma_tally_sum_append(c + p, h);
    lemma_tally_sum_append(c + p + h, o);
    lemma_tally_sum_present(LegacyGuiLanguage::C, language_count(us, LegacyGuiLanguage::C));
    lemma_tally_sum_present(LegacyGuiLanguage::Cpp, language_count(us, LegacyGuiLanguage::Cpp));
    lemma_tally_sum_present(LegacyGuiLanguage::Header, language_count(us, LegacyGuiLanguage::Header));
    lemma_tally_sum_present(LegacyGuiLanguage::Other, language_count(us, LegacyGuiLanguage::Other));
}

} // verus!
