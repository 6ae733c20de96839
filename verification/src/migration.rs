//! The catalog of the legacy CalculiX solver sources and how far their
//! migration has come.
use vstd::prelude::*;
use crate::text::{str_eq, owned, chars_of, has_prefix, has_suffix};
use crate::order::{lex_lt, lex_less, sorted_paths, lemma_insert_sorted_paths, first_after, lemma_first_after_at};
use crate::catalog::{extension_of, ascii_lower_seq, lower_extension, chars_are, line_count, line_count_of, rust_ident, to_rust_ident};

verus! {

broadcast use vstd::string::group_string_axioms;

/// Source language of a legacy solver file.
#[derive(Debug, Clone, Copy, PartialEq, Eq, PartialOrd, Ord, Hash, Structural)]
pub enum LegacyLanguage {
    C,
    Fortran,
    Header,
    Other,
}

/// One legacy solver source file.
#[derive(Debug, Clone, PartialEq, Eq)]
pub struct LegacySourceUnit {
    pub legacy_rel_path: String,
    pub module_name: String,
    pub language: LegacyLanguage,
    pub line_count: usize,
}

/// Migration progress over the solver catalog.
#[derive(Debug, Clone, PartialEq, Eq)]
pub struct MigrationReport {
    pub total_units: usize,
    pub ported_units: usize,
    pub superseded_fortran_units: usize,
    pub pending_units: usize,
    /// Number of files per language, for each language that occurs, in
    /// the order `C`, `Fortran`, `Header`, `Other`: a list ordered by key,
    /// whose contents the contracts state entry by entry.
    pub by_language: Vec<(LegacyLanguage, usize)>,
}

/// Abstract view of a catalog entry.
pub struct UnitView {
    pub path: Seq<char>,
    pub module: Seq<char>,
    pub language: LegacyLanguage,
    pub line_count: nat,
}

impl View for LegacySourceUnit {
    type V = UnitView;

    open spec fn view(&self) -> UnitView {
        UnitView {
            path: self.legacy_rel_path@,
            module: self.module_name@,
            language: self.language,
            line_count: self.line_count as nat,
        }
    }
}

/// View of a report's language tally.
pub open spec fn tally_view(v: Seq<(LegacyLanguage, usize)>) -> Seq<(LegacyLanguage, nat)> {
    v.map_values(|p: (LegacyLanguage, usize)| (p.0, p.1 as nat))
}

/// The solver sources that have been ported, by legacy path.
pub open spec fn ported_paths() -> Seq<Seq<char>> {
    seq![
        "compare.c"@,
        "strcmp1.c"@,
        "stof.c"@,
        "stoi.c"@,
        "superseded/bsort.f"@,
        "superseded/cident.f"@,
        "superseded/insertsortd.f"@,
        "superseded/nident.f"@,
        "superseded/nident2.f"@,
    ]
}

/// The ported solver sources (see `ported_paths`).
pub fn ported_units() -> (r: Vec<&'static str>)
    ensures
        r@.map_values(|s: &str| s@) == ported_paths(),
{
    let r: Vec<&'static str> = vec![
        "compare.c",
        "strcmp1.c",
        "stof.c",
        "stoi.c",
        "superseded/bsort.f",
        "superseded/cident.f",
        "superseded/insertsortd.f",
        "superseded/nident.f",
        "superseded/nident2.f",
    ];
    assert(r@.map_values(|s: &str| s@) =~= ported_paths());
    r
}

/// Whether `path` is one of `list`.
fn listed(list: &Vec<String>, path: &str) -> (r: bool)
    ensures
        r == list@.map_values(|s: String| s@).contains(path@),
{
    let ghost lv = list@.map_values(|s: String| s@);
    let mut i: usize = 0;
    while i < list.len()
        invariant
            lv == list@.map_values(|s: String| s@),
            i <= list@.len(),
            forall|j: int| 0 <= j < i ==> lv[j] != path@,
        decreases list.len() - i,
    {
        if str_eq(list[i].as_str(), path) {
            assert(lv[i as int] == path@);
            return true;
        }
        i += 1;
    }
    false
}

/// Whether the legacy solver file at `legacy_rel_path` has been ported.
pub fn is_ported(legacy_rel_path: &str) -> (r: bool)
    ensures
        r == ported_paths().contains(legacy_rel_path@),
{
    let list = ported_units();
    let ghost lv = list@.map_values(|s: &str| s@);
    let mut i: usize = 0;
    while i < list.len()
        invariant
            lv == list@.map_values(|s: &str| s@),
            lv == ported_paths(),
            i <= list@.len(),
            forall|j: int| 0 <= j < i ==> lv[j] != legacy_rel_path@,
        decreases list.len() - i,
    {
        if str_eq(list[i], legacy_rel_path) {
            assert(lv[i as int] == legacy_rel_path@);
            return true;
        }
        i += 1;
    }
    false
}

/// Number of entries in `language`.
pub open spec fn language_count(us: Seq<UnitView>, language: LegacyLanguage) -> nat
    decreases us.len(),
{
    if us.len() == 0 {
        0
    } else {
        language_count(us.drop_last(), language) + if us.last().language == language { 1nat } else { 0nat }
    }
}

/// Number of entries whose path is in `paths`.
pub open spec fn listed_count(us: Seq<UnitView>, paths: Seq<Seq<char>>) -> nat
    decreases us.len(),
{
    if us.len() == 0 {
        0
    } else {
        listed_count(us.drop_last(), paths) + if paths.contains(us.last().path) { 1nat } else { 0nat }
    }
}

/// `(language, n)` when `n` is positive, else nothing.
pub open spec fn present(language: LegacyLanguage, n: nat) -> Seq<(LegacyLanguage, nat)> {
    if n > 0 {
        seq![(language, n)]
    } else {
        seq![]
    }
}

/// The language tally of a catalog.
pub open spec fn language_tally(us: Seq<UnitView>) -> Seq<(LegacyLanguage, nat)> {
    present(LegacyLanguage::C, language_count(us, LegacyLanguage::C))
        + present(LegacyLanguage::Fortran, language_count(us, LegacyLanguage::Fortran))
        + present(LegacyLanguage::Header, language_count(us, LegacyLanguage::Header))
        + present(LegacyLanguage::Other, language_count(us, LegacyLanguage::Other))
}

/// Every entry has exactly one language, and no more entries are listed
/// than there are.
pub proof fn lemma_counts(us: Seq<UnitView>, paths: Seq<Seq<char>>)
    ensures
        language_count(us, LegacyLanguage::C) + language_count(us, LegacyLanguage::Fortran)
            + language_count(us, LegacyLanguage::Header)
            + language_count(us, LegacyLanguage::Other) == us.len(),
        listed_count(us, paths) <= us.len(),
    decreases us.len(),
{
    if us.len() > 0 {
        lemma_counts(us.drop_last(), paths);
    }
}

fn push_present(v: &mut Vec<(LegacyLanguage, usize)>, language: LegacyLanguage, n: usize)
    ensures
        tally_view(final(v)@) == tally_view(old(v)@) + present(language, n as nat),
{
    if n > 0 {
        v.push((language, n));
        assert(tally_view(final(v)@) =~= tally_view(old(v)@) + present(language, n as nat));
    } else {
        assert(tally_view(final(v)@) =~= tally_view(old(v)@) + present(language, n as nat));
    }
}

/// Migration progress over a solver catalog, given the paths of the
/// Fortran sources that the Rust code supersedes: total, ported,
/// superseded and pending (not superseded) counts and the number of files
/// per language.
pub fn migration_report(units: &Vec<LegacySourceUnit>, superseded_fortran: &Vec<String>) -> (r: MigrationReport)
    ensures
        r.total_units == units@.len(),
        r.ported_units == listed_count(units@.map_values(|u: LegacySourceUnit| u@), ported_paths()),
        r.superseded_fortran_units == listed_count(
            units@.map_values(|u: LegacySourceUnit| u@),
            superseded_fortran@.map_values(|s: String| s@),
        ),
        r.pending_units == r.total_units - r.superseded_fortran_units,
        r.total_units == r.superseded_fortran_units + r.pending_units,
        tally_view(r.by_language@) == language_tally(units@.map_values(|u: LegacySourceUnit| u@)),
{
    let ghost us = units@.map_values(|u: LegacySourceUnit| u@);
    let ghost sv = superseded_fortran@.map_values(|s: String| s@);
    let mut c: usize = 0;
    let mut fortran: usize = 0;
    let mut h: usize = 0;
    let mut other: usize = 0;
    let mut ported: usize = 0;
    let mut superseded: usize = 0;
    let mut i: usize = 0;
    while i < units.len()
        invariant
            us == units@.map_values(|u: LegacySourceUnit| u@),
            sv == superseded_fortran@.map_values(|s: String| s@),
            i <= units@.len(),
            c == language_count(us.subrange(0, i as int), LegacyLanguage::C),
            fortran == language_count(us.subrange(0, i as int), LegacyLanguage::Fortran),
            h == language_count(us.subrange(0, i as int), LegacyLanguage::Header),
            other == language_count(us.subrange(0, i as int), LegacyLanguage::Other),
            ported == listed_count(us.subrange(0, i as int), ported_paths()),
            superseded == listed_count(us.subrange(0, i as int), sv),
        decreases units.len() - i,
    {
        proof {
            assert(us.subrange(0, i + 1).drop_last() =~= us.subrange(0, i as int));
            lemma_counts(us.subrange(0, i as int), ported_paths());
            lemma_counts(us.subrange(0, i as int), sv);
        }
        let u = &units[i];
        match u.language {
            LegacyLanguage::C => { c += 1; },
            LegacyLanguage::Fortran => { fortran += 1; },
            LegacyLanguage::Header => { h += 1; },
            LegacyLanguage::Other => { other += 1; },
        }
        if is_ported(u.legacy_rel_path.as_str()) {
            ported += 1;
        }
        if listed(superseded_fortran, u.legacy_rel_path.as_str()) {
            superseded += 1;
        }
        i += 1;
    }
    proof {
        assert(us.subrange(0, us.len() as int) =~= us);
        lemma_counts(us, sv);
    }
    let mut by_language: Vec<(LegacyLanguage, usize)> = Vec::new();
    push_present(&mut by_language, LegacyLanguage::C, c);
    push_present(&mut by_language, LegacyLanguage::Fortran, fortran);
    push_present(&mut by_language, LegacyLanguage::Header, h);
    push_present(&mut by_language, LegacyLanguage::Other, other);
    assert(tally_view(seq![]) =~= Seq::<(LegacyLanguage, nat)>::empty());
    let total = units.len();
    MigrationReport {
        total_units: total,
        ported_units: ported,
        superseded_fortran_units: superseded,
        pending_units: total - superseded,
        by_language,
    }
}

/// The label of a language in migration reports.
pub fn language_label(language: LegacyLanguage) -> (r: &'static str)
    ensures
        r@ == match language {
            LegacyLanguage::C => "C"@,
            LegacyLanguage::Fortran => "Fortran"@,
            LegacyLanguage::Header => "Header"@,
            LegacyLanguage::Other => "Other"@,
        },
{
    match language {
        LegacyLanguage::C => "C",
        LegacyLanguage::Fortran => "Fortran",
        LegacyLanguage::Header => "Header",
        LegacyLanguage::Other => "Other",
    }
}

/// Language of a solver file by the (ASCII case-insensitive) extension of
/// its path.
pub open spec fn solver_language_of(path: Seq<char>) -> LegacyLanguage {
    let e = ascii_lower_seq(extension_of(path));
    if e == "c"@ {
        LegacyLanguage::C
    } else if e == "f"@ {
        LegacyLanguage::Fortran
    } else if e == "h"@ {
        LegacyLanguage::Header
    } else {
        LegacyLanguage::Other
    }
}

/// The catalog entry of one solver source file.
pub fn unit_from_file(rel_path: &str, bytes: &[u8]) -> (r: LegacySourceUnit)
    requires
        bytes@.len() < usize::MAX,
    ensures
        r@ == (UnitView {
            path: rel_path@,
            module: rust_ident(rel_path@),
            language: solver_language_of(rel_path@),
            line_count: line_count_of(bytes@),
        }),
{
    let e = lower_extension(rel_path);
    let language = if chars_are(&e, "c") {
        LegacyLanguage::C
    } else if chars_are(&e, "f") {
        LegacyLanguage::Fortran
    } else if chars_are(&e, "h") {
        LegacyLanguage::Header
    } else {
        LegacyLanguage::Other
    };
    LegacySourceUnit {
        legacy_rel_path: owned(rel_path),
        module_name: to_rust_ident(rel_path),
        language,
        line_count: line_count(bytes),
    }
}

/// A Fortran source kept under `superseded/`: one that Rust code has
/// replaced.
pub open spec fn superseded_fortran(path: Seq<char>) -> bool {
    &&& "superseded/"@.len() <= path.len()
    &&& path.take("superseded/"@.len() as int) == "superseded/"@
    &&& ".f"@.len() <= path.len()
    &&& path.skip(path.len() - ".f"@.len()) == ".f"@
}

/// Whether the source at `path` is superseded Fortran (see
/// `superseded_fortran`).
pub fn is_superseded_fortran(path: &str) -> (r: bool)
    ensures
        r == superseded_fortran(path@),
{
    let chars = chars_of(path);
    has_prefix(chars.as_slice(), "superseded/") && has_suffix(chars.as_slice(), ".f")
}

/// Paths of the catalog entries that are superseded Fortran, in catalog
/// order.
pub open spec fn superseded_paths(us: Seq<UnitView>) -> Seq<Seq<char>>
    decreases us.len(),
{
    if us.len() == 0 {
        seq![]
    } else if superseded_fortran(us.last().path) {
        superseded_paths(us.drop_last()).push(us.last().path)
    } else {
        superseded_paths(us.drop_last())
    }
}

/// The superseded Fortran sources of a catalog (see `superseded_paths`).
pub fn superseded_fortran_paths(units: &Vec<LegacySourceUnit>) -> (r: Vec<String>)
    ensures
        r@.map_values(|s: String| s@) == superseded_paths(units@.map_values(|u: LegacySourceUnit| u@)),
{
    let ghost uv = units@.map_values(|u: LegacySourceUnit| u@);
    let mut out: Vec<String> = Vec::new();
    let mut i: usize = 0;
    assert(uv.take(0) =~= Seq::<UnitView>::empty());
    assert(out@.map_values(|s: String| s@) =~= Seq::<Seq<char>>::empty());
    while i < units.len()
        invariant
            uv == units@.map_values(|u: LegacySourceUnit| u@),
            i <= uv.len(),
            out@.map_values(|s: String| s@) == superseded_paths(uv.take(i as int)),
        decreases units.len() - i,
    {
        assert(uv.take(i + 1).drop_last() =~= uv.take(i as int));
        assert(uv[i as int].path == units@[i as int].legacy_rel_path@);
        if is_superseded_fortran(units[i].legacy_rel_path.as_str()) {
            let ghost before = out@.map_values(|s: String| s@);
            let p = units[i].legacy_rel_path.clone();
            out.push(p);
            assert(out@.map_values(|s: String| s@) =~= before.push(p@));
        }
        i += 1;
    }
    assert(uv.take(uv.len() as int) =~= uv);
    out
}

/// The catalog entry of the file at `path` with contents `bytes`.
pub open spec fn unit_of(path: Seq<char>, bytes: Seq<u8>) -> UnitView {
    UnitView {
        path: path,
        module: rust_ident(path),
        language: solver_language_of(path),
        line_count: line_count_of(bytes),
    }
}

/// Catalog entries of the given files.
pub open spec fn units_of(files: Seq<(String, Vec<u8>)>) -> Seq<UnitView> {
    files.map_values(|f: (String, Vec<u8>)| unit_of(f.0@, f.1@))
}

/// Paths of catalog entries.
pub open spec fn unit_paths(us: Seq<UnitView>) -> Seq<Seq<char>> {
    us.map_values(|u: UnitView| u.path)
}

/// Entries sorted by path, equal paths in the order given: each entry in
/// turn is placed after the entries whose paths do not come after its own.
pub open spec fn sorted_units(us: Seq<UnitView>) -> Seq<UnitView>
    decreases us.len(),
{
    if us.len() == 0 {
        Seq::empty()
    } else {
        let s = sorted_units(us.drop_last());
        s.insert(first_after(unit_paths(s), us.last().path), us.last())
    }
}

/// The catalog of the given solver source files (relative path and
/// contents), in ascending order of path (see `sorted_units`).
pub fn legacy_units(files: &Vec<(String, Vec<u8>)>) -> (r: Vec<LegacySourceUnit>)
    requires
        forall|i: int| 0 <= i < files@.len() ==> (#[trigger] files@[i]).1@.len() < usize::MAX,
    ensures
        r@.map_values(|u: LegacySourceUnit| u@) == sorted_units(units_of(files@)),
        sorted_paths(unit_paths(r@.map_values(|u: LegacySourceUnit| u@))),
        r@.map_values(|u: LegacySourceUnit| u@).to_multiset() == units_of(files@).to_multiset(),
{
    broadcast use vstd::seq_lib::group_to_multiset_ensures;
    let mut out: Vec<LegacySourceUnit> = Vec::new();
    let mut i: usize = 0;
    assert(unit_paths(out@.map_values(|u: LegacySourceUnit| u@)) =~= Seq::<Seq<char>>::empty());
    while i < files.len()
        invariant
            i <= files@.len(),
            forall|k: int| 0 <= k < files@.len() ==> (#[trigger] files@[k]).1@.len() < usize::MAX,
            out@.map_values(|u: LegacySourceUnit| u@) == sorted_units(units_of(files@).subrange(0, i as int)),
            sorted_paths(unit_paths(out@.map_values(|u: LegacySourceUnit| u@))),
            out@.map_values(|u: LegacySourceUnit| u@).to_multiset()
                == units_of(files@).subrange(0, i as int).to_multiset(),
        decreases files.len() - i,
    {
        let f = &files[i];
        let unit = unit_from_file(f.0.as_str(), f.1.as_slice());
        let key = chars_of(unit.legacy_rel_path.as_str());
        let ghost ov = out@.map_values(|u: LegacySourceUnit| u@);
        let ghost ps = unit_paths(ov);
        let mut p: usize = 0;
        let mut stop = false;
        while !stop && p < out.len()
            invariant
                ov == out@.map_values(|u: LegacySourceUnit| u@),
                ps == unit_paths(ov),
                key@ == unit@.path,
                p <= out@.len(),
                forall|q: int| 0 <= q < p ==> !lex_lt(key@, #[trigger] ps[q]),
                stop ==> p < out@.len() && lex_lt(key@, ps[p as int]),
            decreases out.len() - p + (if stop { 0int } else { 1int }),
        {
            let other = chars_of(out[p].legacy_rel_path.as_str());
            assert(ps[p as int] == other@);
            if lex_less(key.as_slice(), other.as_slice()) {
                stop = true;
            } else {
                p += 1;
            }
        }
        proof {
            lemma_insert_sorted_paths(ps, p as int, unit@.path);
            lemma_first_after_at(ps, unit@.path, p as int);
            let sub = units_of(files@).subrange(0, i + 1);
            assert(sub.drop_last() =~= units_of(files@).subrange(0, i as int));
            assert(sub.last() == unit@);
        }
        out.insert(p, unit);
        proof {
            let nv = out@.map_values(|u: LegacySourceUnit| u@);
            assert(nv =~= ov.insert(p as int, unit@));
            assert(unit_paths(nv) =~= ps.insert(p as int, unit@.path));
            assert(unit@ == units_of(files@)[i as int]);
            assert(units_of(files@).subrange(0, i + 1)
                =~= units_of(files@).subrange(0, i as int).push(unit@));
            vstd::seq_lib::to_multiset_insert(ov, p as int, unit@);
            vstd::seq_lib::to_multiset_build(units_of(files@).subrange(0, i as int), unit@);
        }
        i += 1;
    }
    assert(units_of(files@).subrange(0, files@.len() as int) =~= units_of(files@));
    out
}

/// Paths of the first `n` entries of `us` that have not been ported, in
/// catalog order.
pub open spec fn pending_paths(us: Seq<UnitView>) -> Seq<Seq<char>>
    decreases us.len(),
{
    if us.len() == 0 {
        seq![]
    } else if ported_paths().contains(us[0].path) {
        pending_paths(us.drop_first())
    } else {
        seq![us[0].path] + pending_paths(us.drop_first())
    }
}

/// The first (at most) eight catalog paths that have not been ported.
pub fn pending_preview(units: &Vec<LegacySourceUnit>) -> (r: Vec<String>)
    ensures
        r@.map_values(|s: String| s@) == ({
            let p = pending_paths(units@.map_values(|u: LegacySourceUnit| u@));
            if p.len() <= 8 { p } else { p.take(8) }
        }),
{
    let ghost us = units@.map_values(|u: LegacySourceUnit| u@);
    let mut out: Vec<String> = Vec::new();
    let mut i: usize = 0;
    assert(us.skip(0) =~= us);
    while i < units.len() && out.len() < 8
        invariant
            us == units@.map_values(|u: LegacySourceUnit| u@),
            i <= units@.len(),
            out@.len() <= 8,
            out@.map_values(|s: String| s@) + pending_paths(us.skip(i as int)) == pending_paths(us),
        decreases units.len() - i,
    {
        let ghost rest = us.skip(i as int);
        assert(rest.drop_first() =~= us.skip(i + 1));
        assert(rest[0] == units@[i as int]@);
        if !is_ported(units[i].legacy_rel_path.as_str()) {
            let ghost before = out@.map_values(|s: String| s@);
            out.push(units[i].legacy_rel_path.clone());
            assert(out@.map_values(|s: String| s@) =~= before.push(rest[0].path));
            assert(before.push(rest[0].path) + pending_paths(rest.drop_first()) =~= before + (seq![rest[0].path] + pending_paths(rest.drop_first())));
        }
        i += 1;
    }
    proof {
        let p = pending_paths(us);
        let ov = out@.map_values(|s: String| s@);
        if out@.len() < 8 {
            assert(i == units@.len());
            assert(us.skip(i as int) =~= Seq::<UnitView>::empty());
            assert(ov =~= p);
        } else {
            assert(p.take(8) =~= ov);
        }
    }
    out
}

} // verus!
