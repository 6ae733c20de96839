//! The keyword-card grammar of CalculiX/Abaqus input decks, shared by the
//! two deck readers: a deck is a sequence of cards, each a `*KEYWORD` header
//! line (with optional `,`-continuation lines) followed by data lines;
//! blank lines and `**` comments are skipped.
use vstd::prelude::*;
use crate::text::{trim, trim_start, ascii_upper_seq, trim_chars, to_ascii_upper, string_from, trim_bounds, is_ws, is_whitespace, lemma_trim_start_at, owned};
use crate::lines::line_bounds;
use crate::lines::lines_of;
use crate::inp::{Card, Parameter, ParseError};

verus! {

/// The two dialects of the grammar.
#[derive(Clone, Copy, PartialEq, Eq, Debug, Structural)]
pub enum Dialect {
    /// Plain `,`-separated headers; a bare `*` line is an empty keyword.
    Basic,
    /// Quote-aware headers, `>`-prefixed comments and bare `*` separator lines.
    Extended,
}

/// A `KEY` or `KEY=value` header parameter.
pub struct ParamView {
    pub key: Seq<char>,
    pub value: Option<Seq<char>>,
}

/// A parsed card.
pub struct CardView {
    pub keyword: Seq<char>,
    pub parameters: Seq<ParamView>,
    pub data_lines: Seq<Seq<char>>,
    pub line_start: nat,
}

/// A parse failure: 1-based line number and message.
pub struct ErrorView {
    pub line: nat,
    pub message: Seq<char>,
}

/// `s` starts with `c`.
pub open spec fn starts_with_char(s: Seq<char>, c: char) -> bool {
    s.len() > 0 && s[0] == c
}

/// `s` starts with `"**"`.
pub open spec fn starts_with_two_stars(s: Seq<char>) -> bool {
    s.len() >= 2 && s[0] == '*' && s[1] == '*'
}

/// `s` without its leading run of `c`.
pub open spec fn drop_leading(s: Seq<char>, c: char) -> Seq<char>
    decreases s.len(),
{
    if s.len() > 0 && s[0] == c {
        drop_leading(s.drop_first(), c)
    } else {
        s
    }
}

/// A (trimmed) line is a comment.
pub open spec fn is_comment(d: Dialect, t: Seq<char>) -> bool {
    match d {
        Dialect::Basic => starts_with_two_stars(t),
        Dialect::Extended => starts_with_two_stars(trim_start(drop_leading(t, '>'))),
    }
}

/// A (trimmed) line carries nothing: blank or a comment.
pub open spec fn is_skipped(d: Dialect, t: Seq<char>) -> bool {
    t.len() == 0 || is_comment(d, t)
}

/// How a header field ends: trimmed in the extended dialect, as is otherwise.
pub open spec fn close_field(d: Dialect, cur: Seq<char>) -> Seq<char> {
    match d {
        Dialect::Basic => cur,
        Dialect::Extended => trim(cur),
    }
}

/// State of the header field splitter: fields so far, current field,
/// inside single quotes, inside double quotes.
pub struct SplitView {
    pub fields: Seq<Seq<char>>,
    pub cur: Seq<char>,
    pub in_single: bool,
    pub in_double: bool,
}

/// One character of the header field splitter.
pub open spec fn split_step(d: Dialect, st: SplitView, c: char) -> SplitView {
    if d == Dialect::Extended && c == '\'' && !st.in_double {
        SplitView { cur: st.cur.push(c), in_single: !st.in_single, ..st }
    } else if d == Dialect::Extended && c == '"' && !st.in_single {
        SplitView { cur: st.cur.push(c), in_double: !st.in_double, ..st }
    } else if c == ',' && !st.in_single && !st.in_double {
        SplitView { fields: st.fields.push(close_field(d, st.cur)), cur: seq![], ..st }
    } else {
        SplitView { cur: st.cur.push(c), ..st }
    }
}

/// The splitter after the first `n` characters of `h`.
pub open spec fn split_run(d: Dialect, h: Seq<char>, n: int) -> SplitView
    decreases n,
{
    if n <= 0 {
        SplitView { fields: seq![], cur: seq![], in_single: false, in_double: false }
    } else {
        split_step(d, split_run(d, h, n - 1), h[n - 1])
    }
}

/// The `,`-separated fields of a header (commas inside quotes do not
/// separate in the extended dialect).
pub open spec fn split_fields(d: Dialect, h: Seq<char>) -> Seq<Seq<char>> {
    let st = split_run(d, h, h.len() as int);
    st.fields.push(close_field(d, st.cur))
}

/// Index of the first `c` in `s` at or after `i`, or `s.len()`.
pub open spec fn find_char(s: Seq<char>, c: char, i: int) -> int
    decreases s.len() - i,
{
    if i >= s.len() {
        s.len() as int
    } else if s[i] == c {
        i
    } else {
        find_char(s, c, i + 1)
    }
}

/// The parameter a (trimmed, non-empty) header item stands for: `KEY=value`
/// splits at the first `=`; keys are upper-cased.
pub open spec fn param_of(item: Seq<char>) -> ParamView {
    let k = find_char(item, '=', 0);
    if k < item.len() {
        ParamView {
            key: ascii_upper_seq(trim(item.take(k))),
            value: Some(trim(item.skip(k + 1))),
        }
    } else {
        ParamView { key: ascii_upper_seq(item), value: None }
    }
}

/// Parameters of the fields `1..n` (blank fields are skipped).
pub open spec fn params_upto(fields: Seq<Seq<char>>, n: int) -> Seq<ParamView>
    decreases n,
{
    if n <= 1 {
        seq![]
    } else {
        let item = trim(fields[n - 1]);
        if item.len() == 0 {
            params_upto(fields, n - 1)
        } else {
            params_upto(fields, n - 1).push(param_of(item))
        }
    }
}

/// Keyword (upper-cased) and parameters of a header; `None` when the
/// keyword is empty.
pub open spec fn parse_header(d: Dialect, h: Seq<char>) -> Option<(Seq<char>, Seq<ParamView>)> {
    let fields = split_fields(d, h);
    let kw = trim(fields[0]);
    if kw.len() == 0 {
        None
    } else {
        Some((ascii_upper_seq(kw), params_upto(fields, fields.len() as int)))
    }
}

/// Where the reader stands between lines.
pub enum PhaseView {
    /// Expecting a card header.
    Idle,
    /// A header has been read; `,` lines continue it.
    Header { line_start: nat, text: Seq<char> },
    /// Reading the data lines of a card.
    Data { card: CardView },
    /// Reading stopped on an error.
    Failed { err: ErrorView },
}

/// Cards completed so far and the current phase.
pub struct ReadView {
    pub cards: Seq<CardView>,
    pub phase: PhaseView,
}

/// Message for a line that is neither blank, comment nor card header.
pub open spec fn msg_expected_card() -> Seq<char> {
    "expected card starting with '*'"@
}

/// Message for a header without keyword.
pub open spec fn msg_empty_keyword() -> Seq<char> {
    "empty card keyword"@
}

/// The phase after a trimmed line `t` (0-based index `i`) read while
/// expecting a header.
pub open spec fn idle_phase(d: Dialect, i: int, t: Seq<char>) -> PhaseView {
    if is_skipped(d, t) {
        PhaseView::Idle
    } else if !starts_with_char(t, '*') {
        PhaseView::Failed { err: ErrorView { line: (i + 1) as nat, message: msg_expected_card() } }
    } else {
        let h = trim(drop_leading(t, '*'));
        if d == Dialect::Extended && h.len() == 0 {
            PhaseView::Idle
        } else {
            PhaseView::Header { line_start: (i + 1) as nat, text: h }
        }
    }
}

/// A trimmed line `t` (0-based index `i`) read while expecting a header.
pub open spec fn idle_step(d: Dialect, cards: Seq<CardView>, i: int, t: Seq<char>) -> ReadView {
    ReadView { cards, phase: idle_phase(d, i, t) }
}

/// A trimmed line read while collecting the data lines of `card`.
pub open spec fn data_step(d: Dialect, cards: Seq<CardView>, card: CardView, i: int, t: Seq<char>) -> ReadView {
    if is_skipped(d, t) {
        ReadView { cards, phase: PhaseView::Data { card } }
    } else if starts_with_char(t, '*') {
        idle_step(d, cards.push(card), i, t)
    } else {
        ReadView { cards, phase: PhaseView::Data { card: CardView { data_lines: card.data_lines.push(t), ..card } } }
    }
}

/// The card a completed header opens, or the failure for an empty keyword.
pub open spec fn open_card(d: Dialect, line_start: nat, text: Seq<char>) -> Result<CardView, ErrorView> {
    match parse_header(d, text) {
        None => Err(ErrorView { line: line_start, message: msg_empty_keyword() }),
        Some((kw, ps)) => Ok(CardView { keyword: kw, parameters: ps, data_lines: seq![], line_start }),
    }
}

/// One trimmed line `t` (0-based index `i`).
pub open spec fn read_step(d: Dialect, st: ReadView, i: int, t: Seq<char>) -> ReadView {
    match st.phase {
        PhaseView::Failed { .. } => st,
        PhaseView::Idle => idle_step(d, st.cards, i, t),
        PhaseView::Header { line_start, text } => {
            if starts_with_char(t, ',') {
                ReadView { cards: st.cards, phase: PhaseView::Header { line_start, text: text + t } }
            } else {
                match open_card(d, line_start, text) {
                    Err(e) => ReadView { cards: st.cards, phase: PhaseView::Failed { err: e } },
                    Ok(card) => data_step(d, st.cards, card, i, t),
                }
            }
        },
        PhaseView::Data { card } => data_step(d, st.cards, card, i, t),
    }
}

/// The reader after the first `n` lines of `ls`.
pub open spec fn read_run(d: Dialect, ls: Seq<Seq<char>>, n: int) -> ReadView
    decreases n,
{
    if n <= 0 {
        ReadView { cards: seq![], phase: PhaseView::Idle }
    } else {
        read_step(d, read_run(d, ls, n - 1), n - 1, trim(ls[n - 1]))
    }
}

/// What the reader yields when the input ends in state `st`.
pub open spec fn read_finish(d: Dialect, st: ReadView) -> Result<Seq<CardView>, ErrorView> {
    match st.phase {
        PhaseView::Failed { err } => Err(err),
        PhaseView::Idle => Ok(st.cards),
        PhaseView::Header { line_start, text } => match open_card(d, line_start, text) {
            Err(e) => Err(e),
            Ok(card) => Ok(st.cards.push(card)),
        },
        PhaseView::Data { card } => Ok(st.cards.push(card)),
    }
}

/// The cards of the deck text `raw`, or the first error.
pub open spec fn parse_deck(d: Dialect, raw: Seq<char>) -> Result<Seq<CardView>, ErrorView> {
    let ls = lines_of(raw);
    read_finish(d, read_run(d, ls, ls.len() as int))
}


/// View of a vector of character vectors.
pub open spec fn seqs_view(v: Seq<Vec<char>>) -> Seq<Seq<char>> {
    v.map_values(|x: Vec<char>| x@)
}

/// The header fields of `h` (see `split_fields`).
pub fn split_header_fields(d: Dialect, h: &[char]) -> (r: Vec<Vec<char>>)
    ensures
        seqs_view(r@) == split_fields(d, h@),
{
    let mut fields: Vec<Vec<char>> = Vec::new();
    let mut cur: Vec<char> = Vec::new();
    let mut in_single = false;
    let mut in_double = false;
    let mut i: usize = 0;
    assert(seqs_view(fields@) =~= Seq::<Seq<char>>::empty());
    assert(cur@ =~= Seq::<char>::empty());
    while i < h.len()
        invariant
            i <= h@.len(),
            split_run(d, h@, i as int) == (SplitView {
                fields: seqs_view(fields@),
                cur: cur@,
                in_single,
                in_double,
            }),
        decreases h.len() - i,
    {
        let c = h[i];
        let ghost f0 = seqs_view(fields@);
        if d == Dialect::Extended && c == '\'' && !in_double {
            in_single = !in_single;
            cur.push(c);
        } else if d == Dialect::Extended && c == '"' && !in_single {
            in_double = !in_double;
            cur.push(c);
        } else if c == ',' && !in_single && !in_double {
            let closed = match d {
                Dialect::Basic => cur,
                Dialect::Extended => trim_chars(&cur),
            };
            fields.push(closed);
            cur = Vec::new();
            assert(seqs_view(fields@) =~= f0.push(closed@));
        } else {
            cur.push(c);
        }
        i += 1;
    }
    let closed = match d {
        Dialect::Basic => cur,
        Dialect::Extended => trim_chars(&cur),
    };
    let ghost f0 = seqs_view(fields@);
    fields.push(closed);
    assert(seqs_view(fields@) =~= f0.push(closed@));
    fields
}

/// Index of the first `c` in `s`, or `s.len()`.
fn find_char_exec(s: &[char], c: char) -> (k: usize)
    ensures
        k == find_char(s@, c, 0),
{
    let mut k: usize = 0;
    while k < s.len() && s[k] != c
        invariant
            k <= s@.len(),
            find_char(s@, c, 0) == find_char(s@, c, k as int),
        decreases s.len() - k,
    {
        k += 1;
    }
    k
}

/// The parameter a header item stands for (see `param_of`).
pub fn param_from_item(item: &[char]) -> (p: Parameter)
    ensures
        p@ == param_of(item@),
{
    let k = find_char_exec(item, '=');
    if k < item.len() {
        let key_part = trim_chars(vstd::slice::slice_subrange(item, 0, k));
        let key = to_ascii_upper(&key_part);
        let value = trim_chars(vstd::slice::slice_subrange(item, k + 1, item.len()));
        assert(item@.subrange(0, k as int) =~= item@.take(k as int));
        assert(item@.subrange(k + 1, item@.len() as int) =~= item@.skip(k + 1));
        Parameter { key: string_from(&key), value: Some(string_from(&value)) }
    } else {
        let key = to_ascii_upper(item);
        Parameter { key: string_from(&key), value: None }
    }
}

/// Keyword and parameters of a header (see `parse_header`).
pub fn parse_header_exec(d: Dialect, h: &[char]) -> (r: Option<(String, Vec<Parameter>)>)
    ensures
        match r {
            None => parse_header(d, h@) is None,
            Some((kw, ps)) => parse_header(d, h@) == Some((kw@, ps@.map_values(|p: Parameter| p@))),
        },
{
    let fields = split_header_fields(d, h);
    let ghost fv = seqs_view(fields@);
    assert(fv.len() >= 1);
    assert(fv[0] == fields@[0]@);
    let kw = trim_chars(&fields[0]);
    if kw.len() == 0 {
        return None;
    }
    let kw_upper = to_ascii_upper(&kw);
    let mut params: Vec<Parameter> = Vec::new();
    let mut j: usize = 1;
    while j < fields.len()
        invariant
            1 <= j <= fields@.len(),
            fv == seqs_view(fields@),
            params@.map_values(|p: Parameter| p@) == params_upto(fv, j as int),
        decreases fields.len() - j,
    {
        let item = trim_chars(&fields[j]);
        assert(fv[j as int] == fields@[j as int]@);
        let ghost before = params@.map_values(|p: Parameter| p@);
        if item.len() > 0 {
            let p = param_from_item(&item);
            params.push(p);
            assert(params@.map_values(|p: Parameter| p@) =~= before.push(p@));
        }
        j += 1;
    }
    Some((string_from(&kw_upper), params))
}

/// The phase of the exec reader.
pub enum Phase {
    Idle,
    Header { line_start: usize, text: Vec<char> },
    Data { card: Card },
    Failed { err: ParseError },
}

impl View for Phase {
    type V = PhaseView;

    open spec fn view(&self) -> PhaseView {
        match self {
            Phase::Idle => PhaseView::Idle,
            Phase::Header { line_start, text } => PhaseView::Header { line_start: *line_start as nat, text: text@ },
            Phase::Data { card } => PhaseView::Data { card: card@ },
            Phase::Failed { err } => PhaseView::Failed { err: err@ },
        }
    }
}

/// View of a card vector.
pub open spec fn cards_view(v: Seq<Card>) -> Seq<CardView> {
    v.map_values(|c: Card| c@)
}

proof fn lemma_drop_leading_at(s: Seq<char>, c: char, k: int)
    requires
        0 <= k <= s.len(),
        forall|i: int| 0 <= i < k ==> s[i] == c,
        k == s.len() || s[k] != c,
    ensures
        drop_leading(s, c) == s.subrange(k, s.len() as int),
    decreases k,
{
    if k == 0 {
        assert(s.subrange(0, s.len() as int) =~= s);
    } else {
        let t = s.drop_first();
        assert forall|i: int| 0 <= i < k - 1 implies t[i] == c by {
            assert(t[i] == s[i + 1]);
        }
        lemma_drop_leading_at(t, c, k - 1);
        assert(t.subrange(k - 1, t.len() as int) =~= s.subrange(k, s.len() as int));
    }
}

/// Length of the leading run of `c` in `t`; `drop_leading(t, c)` is the rest.
fn leading_run(t: &[char], c: char) -> (m: usize)
    ensures
        m <= t@.len(),
        drop_leading(t@, c) == t@.subrange(m as int, t@.len() as int),
{
    let mut m: usize = 0;
    while m < t.len() && t[m] == c
        invariant
            m <= t@.len(),
            forall|i: int| 0 <= i < m ==> t@[i] == c,
        decreases t.len() - m,
    {
        m += 1;
    }
    proof {
        lemma_drop_leading_at(t@, c, m as int);
    }
    m
}

/// Whether a trimmed line is a comment.
fn is_comment_exec(d: Dialect, t: &[char]) -> (r: bool)
    ensures
        r == is_comment(d, t@),
{
    match d {
        Dialect::Basic => t.len() >= 2 && t[0] == '*' && t[1] == '*',
        Dialect::Extended => {
            let m = leading_run(t, '>');
            let mut k = m;
            while k < t.len() && is_whitespace(t[k])
                invariant
                    m <= k <= t@.len(),
                    forall|i: int| m <= i < k ==> is_ws(t@[i]),
                decreases t.len() - k,
            {
                k += 1;
            }
            proof {
                let u = t@.subrange(m as int, t@.len() as int);
                assert forall|i: int| 0 <= i < k - m implies is_ws(u[i]) by {
                    assert(u[i] == t@[m + i]);
                }
                if k < t.len() {
                    assert(u[k - m] == t@[k as int]);
                }
                lemma_trim_start_at(u, k - m);
                let w = u.subrange(k - m, u.len() as int);
                assert(w =~= t@.subrange(k as int, t@.len() as int));
            }
            t.len() - k >= 2 && t[k] == '*' && t[k + 1] == '*'
        },
    }
}

/// Whether a trimmed line is blank or a comment.
fn is_skipped_exec(d: Dialect, t: &[char]) -> (r: bool)
    ensures
        r == is_skipped(d, t@),
{
    t.len() == 0 || is_comment_exec(d, t)
}

/// The phase after a trimmed line read while expecting a header.
fn idle_phase_exec(d: Dialect, i: usize, t: &[char]) -> (p: Phase)
    requires
        i < usize::MAX,
    ensures
        p@ == idle_phase(d, i as int, t@),
{
    if is_skipped_exec(d, t) {
        Phase::Idle
    } else if !(t.len() > 0 && t[0] == '*') {
        Phase::Failed { err: ParseError { line: i + 1, message: owned("expected card starting with '*'") } }
    } else {
        let m = leading_run(t, '*');
        let (lo, hi) = trim_bounds(t, m, t.len());
        if d == Dialect::Extended && hi == lo {
            Phase::Idle
        } else {
            let h = vstd::slice::slice_to_vec(vstd::slice::slice_subrange(t, lo, hi));
            Phase::Header { line_start: i + 1, text: h }
        }
    }
}

/// The card a completed header opens (see `open_card`).
fn open_card_exec(d: Dialect, line_start: usize, text: &[char]) -> (r: Result<Card, ParseError>)
    ensures
        match r {
            Ok(card) => open_card(d, line_start as nat, text@) == Ok::<CardView, ErrorView>(card@),
            Err(e) => open_card(d, line_start as nat, text@) == Err::<CardView, ErrorView>(e@),
        },
{
    match parse_header_exec(d, text) {
        None => Err(ParseError { line: line_start, message: owned("empty card keyword") }),
        Some((keyword, parameters)) => {
            let card = Card { keyword, parameters, data_lines: Vec::new(), line_start };
            assert(card@.data_lines =~= Seq::<Seq<char>>::empty());
            Ok(card)
        },
    }
}

/// A trimmed line read while collecting the data lines of `card`.
fn data_step_exec(d: Dialect, cards: &mut Vec<Card>, card: Card, i: usize, t: &[char]) -> (p: Phase)
    requires
        i < usize::MAX,
    ensures
        data_step(d, cards_view(old(cards)@), card@, i as int, t@) == (ReadView {
            cards: cards_view(final(cards)@),
            phase: p@,
        }),
{
    if is_skipped_exec(d, t) {
        Phase::Data { card }
    } else if t.len() > 0 && t[0] == '*' {
        let ghost before = cards_view(cards@);
        cards.push(card);
        assert(cards_view(cards@) =~= before.push(card@));
        idle_phase_exec(d, i, t)
    } else {
        let mut card = card;
        let ghost before = card@;
        card.data_lines.push(string_from(t));
        assert(card@.data_lines =~= before.data_lines.push(t@));
        Phase::Data { card }
    }
}

/// One trimmed line `t` (0-based index `i`) read in phase `phase`.
fn read_step_exec(d: Dialect, cards: &mut Vec<Card>, phase: Phase, i: usize, t: &[char]) -> (p: Phase)
    requires
        i < usize::MAX,
    ensures
        read_step(d, ReadView { cards: cards_view(old(cards)@), phase: phase@ }, i as int, t@)
            == (ReadView { cards: cards_view(final(cards)@), phase: p@ }),
{
    match phase {
        Phase::Failed { err } => Phase::Failed { err },
        Phase::Idle => idle_phase_exec(d, i, t),
        Phase::Header { line_start, text } => {
            if t.len() > 0 && t[0] == ',' {
                let mut text = text;
                let ghost before = text@;
                let mut k: usize = 0;
                while k < t.len()
                    invariant
                        k <= t@.len(),
                        text@ == before + t@.subrange(0, k as int),
                    decreases t.len() - k,
                {
                    text.push(t[k]);
                    assert(before + t@.subrange(0, k + 1) =~= (before + t@.subrange(0, k as int)).push(t@[k as int]));
                    k += 1;
                }
                assert(t@.subrange(0, t@.len() as int) =~= t@);
                Phase::Header { line_start, text }
            } else {
                match open_card_exec(d, line_start, &text) {
                    Err(err) => Phase::Failed { err },
                    Ok(card) => data_step_exec(d, cards, card, i, t),
                }
            }
        },
        Phase::Data { card } => data_step_exec(d, cards, card, i, t),
    }
}

proof fn lemma_failed_stays(d: Dialect, ls: Seq<Seq<char>>, k: int, n: int)
    requires
        0 <= k <= n,
        read_run(d, ls, k).phase is Failed,
    ensures
        read_run(d, ls, n) == read_run(d, ls, k),
    decreases n - k,
{
    if n > k {
        lemma_failed_stays(d, ls, k, n - 1);
    }
}

/// Reads the deck text `raw` in dialect `d` (see `parse_deck`).
pub fn read_deck(d: Dialect, raw: &str) -> (r: Result<Vec<Card>, ParseError>)
    ensures
        match r {
            Ok(cards) => parse_deck(d, raw@) == Ok::<Seq<CardView>, ErrorView>(cards_view(cards@)),
            Err(e) => parse_deck(d, raw@) == Err::<Seq<CardView>, ErrorView>(e@),
        },
{
    let chars = crate::text::chars_of(raw);
    let cs = chars.as_slice();
    let bounds = line_bounds(cs);
    let ghost ls = lines_of(chars@);
    let mut cards: Vec<Card> = Vec::new();
    let mut phase = Phase::Idle;
    let mut k: usize = 0;
    assert(cards_view(cards@) =~= Seq::<CardView>::empty());
    while k < bounds.len()
        invariant
            chars@ == raw@,
            ls == lines_of(chars@),
            bounds@.len() == ls.len(),
            forall|j: int|
                0 <= j < bounds@.len() ==> (#[trigger] bounds@[j]).0 <= bounds@[j].1 <= chars@.len() && chars@.subrange(
                    bounds@[j].0 as int,
                    bounds@[j].1 as int,
                ) == ls[j],
            k <= bounds@.len(),
            read_run(d, ls, k as int) == (ReadView { cards: cards_view(cards@), phase: phase@ }),
            !(phase is Failed),
        decreases bounds.len() - k,
    {
        let (s, e) = bounds[k];
        assert(chars@.subrange(s as int, e as int) == ls[k as int]);
        let (lo, hi) = trim_bounds(chars.as_slice(), s, e);
        let t = vstd::slice::slice_subrange(chars.as_slice(), lo, hi);
        let p = read_step_exec(d, &mut cards, phase, k, t);
        match p {
            Phase::Failed { err } => {
                proof {
                    lemma_failed_stays(d, ls, k + 1, ls.len() as int);
                }
                return Err(err);
            },
            _ => {
                phase = p;
            },
        }
        k += 1;
    }
    assert(ls.len() == k);
    match phase {
        Phase::Failed { err } => Err(err),
        Phase::Idle => Ok(cards),
        Phase::Header { line_start, text } => match open_card_exec(d, line_start, &text) {
            Err(err) => Err(err),
            Ok(card) => {
                let ghost before = cards_view(cards@);
                cards.push(card);
                assert(cards_view(cards@) =~= before.push(card@));
                Ok(cards)
            },
        },
        Phase::Data { card } => {
            let ghost before = cards_view(cards@);
            cards.push(card);
            assert(cards_view(cards@) =~= before.push(card@));
            Ok(cards)
        },
    }
}

/// A parsed card is well formed: its keyword is not empty and has no
/// lower-case ASCII letter, and each data line is non-empty and does not
/// start with `*`.
pub open spec fn card_well_formed(c: CardView) -> bool {
    &&& c.keyword.len() > 0
    &&& forall|i: int| 0 <= i < c.keyword.len() ==> !('a' <= #[trigger] c.keyword[i] && c.keyword[i] <= 'z')
    &&& forall|j: int| 0 <= j < c.data_lines.len() ==> (#[trigger] c.data_lines[j]).len() > 0
        && !starts_with_char(c.data_lines[j], '*')
}

spec fn read_state_ok(st: ReadView) -> bool {
    &&& forall|i: int| 0 <= i < st.cards.len() ==> card_well_formed(#[trigger] st.cards[i])
    &&& (st.phase matches PhaseView::Data { card } ==> card_well_formed(card))
}

proof fn lemma_open_card_ok(d: Dialect, line_start: nat, text: Seq<char>)
    ensures
        open_card(d, line_start, text) matches Ok(c) ==> card_well_formed(c),
{
    match parse_header(d, text) {
        None => {},
        Some((kw, ps)) => {
            let fields = split_fields(d, text);
            let raw = trim(fields[0]);
            assert(kw == ascii_upper_seq(raw));
            assert forall|i: int| 0 <= i < kw.len() implies !('a' <= #[trigger] kw[i] && kw[i] <= 'z') by {
                let c = raw[i];
                if 'a' <= c && c <= 'z' {
                    assert((c as u32 - 32) as char == kw[i]);
                }
            }
        },
    }
}

proof fn lemma_read_step_ok(d: Dialect, st: ReadView, i: int, t: Seq<char>)
    requires
        read_state_ok(st),
    ensures
        read_state_ok(read_step(d, st, i, t)),
{
    match st.phase {
        PhaseView::Header { line_start, text } => {
            lemma_open_card_ok(d, line_start, text);
            if !starts_with_char(t, ',') {
                match open_card(d, line_start, text) {
                    Ok(card) => {
                        assert(card.data_lines =~= Seq::<Seq<char>>::empty());
                        lemma_data_step_ok(d, st.cards, card, i, t);
                    },
                    Err(_) => {},
                }
            }
        },
        PhaseView::Data { card } => {
            lemma_data_step_ok(d, st.cards, card, i, t);
        },
        _ => {},
    }
}

proof fn lemma_data_step_ok(d: Dialect, cards: Seq<CardView>, card: CardView, i: int, t: Seq<char>)
    requires
        forall|k: int| 0 <= k < cards.len() ==> card_well_formed(#[trigger] cards[k]),
        card_well_formed(card),
    ensures
        read_state_ok(data_step(d, cards, card, i, t)),
{
    if !is_skipped(d, t) {
        if starts_with_char(t, '*') {
            let c2 = cards.push(card);
            assert forall|k: int| 0 <= k < c2.len() implies card_well_formed(#[trigger] c2[k]) by {
                if k < cards.len() {
                    assert(c2[k] == cards[k]);
                }
            }
        } else {
            let c = CardView { data_lines: card.data_lines.push(t), ..card };
            assert forall|j: int| 0 <= j < c.data_lines.len() implies (#[trigger] c.data_lines[j]).len() > 0
                && !starts_with_char(c.data_lines[j], '*') by {
                if j < card.data_lines.len() {
                    assert(c.data_lines[j] == card.data_lines[j]);
                }
            }
        }
    }
}

proof fn lemma_read_run_ok(d: Dialect, ls: Seq<Seq<char>>, n: int)
    ensures
        read_state_ok(read_run(d, ls, n)),
    decreases n,
{
    if n > 0 {
        lemma_read_run_ok(d, ls, n - 1);
        lemma_read_step_ok(d, read_run(d, ls, n - 1), n - 1, trim(ls[n - 1]));
    }
}

/// Every card a deck parses to is well formed (see `card_well_formed`).
pub proof fn lemma_parsed_cards_well_formed(d: Dialect, raw: Seq<char>)
    ensures
        parse_deck(d, raw) matches Ok(cards) ==> forall|i: int| 0 <= i < cards.len() ==> card_well_formed(#[trigger] cards[i]),
{
    let ls = lines_of(raw);
    let st = read_run(d, ls, ls.len() as int);
    lemma_read_run_ok(d, ls, ls.len() as int);
    match st.phase {
        PhaseView::Header { line_start, text } => {
            lemma_open_card_ok(d, line_start, text);
            match open_card(d, line_start, text) {
                Ok(card) => {
                    let c2 = st.cards.push(card);
                    assert forall|k: int| 0 <= k < c2.len() implies card_well_formed(#[trigger] c2[k]) by {
                        if k < st.cards.len() {
                            assert(c2[k] == st.cards[k]);
                        }
                    }
                },
                Err(_) => {},
            }
        },
        PhaseView::Data { card } => {
            let c2 = st.cards.push(card);
            assert forall|k: int| 0 <= k < c2.len() implies card_well_formed(#[trigger] c2[k]) by {
                if k < st.cards.len() {
                    assert(c2[k] == st.cards[k]);
                }
            }
        },
        _ => {},
    }
}

/// Cards whose first lines are among lines `1..=n`, in strictly increasing
/// order.
pub open spec fn starts_in_order(cards: Seq<CardView>, n: nat) -> bool {
    &&& forall|k: int| 0 <= k < cards.len() ==> 1 <= #[trigger] cards[k].line_start <= n
    &&& forall|a: int, b: int| 0 <= a < b < cards.len() ==> (#[trigger] cards[a]).line_start < (#[trigger] cards[b]).line_start
}

/// Every card of `cards` starts before line `l`.
pub open spec fn all_before(cards: Seq<CardView>, l: nat) -> bool {
    forall|k: int| 0 <= k < cards.len() ==> (#[trigger] cards[k]).line_start < l
}

spec fn read_lines_ok(st: ReadView, n: nat) -> bool {
    &&& starts_in_order(st.cards, n)
    &&& match st.phase {
        PhaseView::Idle => true,
        PhaseView::Header { line_start, .. } => 1 <= line_start <= n && all_before(st.cards, line_start),
        PhaseView::Data { card } => 1 <= card.line_start <= n && all_before(st.cards, card.line_start),
        PhaseView::Failed { err } => 1 <= err.line <= n,
    }
}

proof fn lemma_push_in_order(cards: Seq<CardView>, c: CardView, n: nat)
    requires
        starts_in_order(cards, n),
        all_before(cards, c.line_start),
        1 <= c.line_start <= n,
    ensures
        starts_in_order(cards.push(c), n),
{
    let c2 = cards.push(c);
    assert forall|k: int| 0 <= k < c2.len() implies 1 <= #[trigger] c2[k].line_start <= n by {
        if k < cards.len() {
            assert(c2[k] == cards[k]);
        }
    }
    assert forall|a: int, b: int| 0 <= a < b < c2.len() implies (#[trigger] c2[a]).line_start < (#[trigger] c2[b]).line_start by {
        assert(c2[a] == cards[a]);
        if b < cards.len() {
            assert(c2[b] == cards[b]);
        }
    }
}

proof fn lemma_idle_step_lines(d: Dialect, cards: Seq<CardView>, i: int, t: Seq<char>)
    requires
        i >= 0,
        starts_in_order(cards, i as nat),
    ensures
        read_lines_ok(idle_step(d, cards, i, t), (i + 1) as nat),
{
    assert forall|k: int| 0 <= k < cards.len() implies (#[trigger] cards[k]).line_start < (i + 1) as nat by {
        assert(1 <= cards[k].line_start <= i);
    }
}

proof fn lemma_data_step_lines(d: Dialect, cards: Seq<CardView>, card: CardView, i: int, t: Seq<char>)
    requires
        i >= 0,
        starts_in_order(cards, i as nat),
        1 <= card.line_start <= i,
        all_before(cards, card.line_start),
    ensures
        read_lines_ok(data_step(d, cards, card, i, t), (i + 1) as nat),
{
    assert forall|k: int| 0 <= k < cards.len() implies 1 <= #[trigger] cards[k].line_start <= (i + 1) as nat by {
        assert(1 <= cards[k].line_start <= i);
    }
    if !is_skipped(d, t) && starts_with_char(t, '*') {
        lemma_push_in_order(cards, card, i as nat);
        lemma_idle_step_lines(d, cards.push(card), i, t);
    }
}

proof fn lemma_read_step_lines(d: Dialect, st: ReadView, i: int, t: Seq<char>)
    requires
        i >= 0,
        read_lines_ok(st, i as nat),
    ensures
        read_lines_ok(read_step(d, st, i, t), (i + 1) as nat),
{
    assert forall|k: int| 0 <= k < st.cards.len() implies 1 <= #[trigger] st.cards[k].line_start <= (i + 1) as nat by {
        assert(1 <= st.cards[k].line_start <= i);
    }
    match st.phase {
        PhaseView::Failed { .. } => {},
        PhaseView::Idle => {
            lemma_idle_step_lines(d, st.cards, i, t);
        },
        PhaseView::Header { line_start, text } => {
            if !starts_with_char(t, ',') {
                match open_card(d, line_start, text) {
                    Ok(card) => {
                        lemma_data_step_lines(d, st.cards, card, i, t);
                    },
                    Err(_) => {},
                }
            }
        },
        PhaseView::Data { card } => {
            lemma_data_step_lines(d, st.cards, card, i, t);
        },
    }
}

proof fn lemma_read_run_lines(d: Dialect, ls: Seq<Seq<char>>, n: int)
    requires
        0 <= n,
    ensures
        read_lines_ok(read_run(d, ls, n), n as nat),
    decreases n,
{
    if n > 0 {
        lemma_read_run_lines(d, ls, n - 1);
        lemma_read_step_lines(d, read_run(d, ls, n - 1), n - 1, trim(ls[n - 1]));
    }
}

/// Cards and errors point at lines of the deck: the first lines of the
/// parsed cards are lines of the text (1-based), in strictly increasing
/// order, and a parse error names one of its lines.
pub proof fn lemma_parsed_line_numbers(d: Dialect, raw: Seq<char>)
    ensures
        parse_deck(d, raw) matches Ok(cards) ==> starts_in_order(cards, lines_of(raw).len()),
        parse_deck(d, raw) matches Err(e) ==> 1 <= e.line <= lines_of(raw).len(),
{
    let ls = lines_of(raw);
    let n = ls.len();
    let st = read_run(d, ls, n as int);
    lemma_read_run_lines(d, ls, n as int);
    match st.phase {
        PhaseView::Header { line_start, text } => {
            match open_card(d, line_start, text) {
                Ok(card) => {
                    lemma_push_in_order(st.cards, card, n);
                },
                Err(_) => {},
            }
        },
        PhaseView::Data { card } => {
            lemma_push_in_order(st.cards, card, n);
        },
        _ => {},
    }
}

} // verus!
