//! Expansion of `*INCLUDE` cards. The expander decides everything; it asks
//! its caller, one action at a time, for the file-system work: normalizing
//! a path, reading a file, and resolving an include against the file that
//! names it. The caller answers each action with an event.
use vstd::prelude::*;
use crate::deck::{CardView, ErrorView, Dialect, parse_deck, cards_view};
use crate::inp::{Card, Deck, ParseError, Parameter, copy_card, opt_view};
use crate::model::{normalized, normalized_view, first_param_value};
use crate::text::{trim, chars_of, trim_chars, string_from, owned, push_str, str_eq};

verus! {

broadcast use vstd::string::group_string_axioms;

/// A file being expanded: the path it was opened by, its normalized path,
/// its cards, and the index of the next card to copy.
#[verifier::ext_equal]
pub struct FrameView {
    pub path: Seq<char>,
    pub norm: Seq<char>,
    pub cards: Seq<CardView>,
    pub next: nat,
}

/// What the expander waits for.
pub enum PhaseView {
    /// The resolved path of an include.
    AwaitResolve,
    /// The normalized form of the path being opened.
    AwaitNormalize(Seq<char>),
    /// The contents of the path being opened, with its normalized form.
    AwaitRead(Seq<char>, Seq<char>),
    /// Nothing: the expansion has ended.
    Finished,
}

/// State of an expansion: the stack of open files (the first is the root),
/// the cards copied so far, and what comes next.
pub struct ExpanderView {
    pub frames: Seq<FrameView>,
    pub out: Seq<CardView>,
    pub phase: PhaseView,
}

/// View of an action.
pub enum ActionView {
    Normalize(Seq<char>),
    Read(Seq<char>),
    Resolve(Seq<char>, Seq<char>),
    Done(Result<Seq<CardView>, ErrorView>),
}

/// View of an event.
pub enum EventView {
    Normalized(Seq<char>),
    ReadOk(Seq<char>),
    ReadFailed(Seq<char>),
    Resolved(Seq<char>),
}

/// What the expander asks of its caller.
pub enum IncludeAction {
    /// Normalize this path (make it canonical where it exists) and answer
    /// `Normalized`.
    Normalize(String),
    /// Read this file and answer `ReadOk` with its text or `ReadFailed`
    /// with the error's text.
    Read(String),
    /// Resolve `target` against the directory of `from` (the current
    /// directory where `from` has none; an absolute `target` stands for
    /// itself), normalize the result and answer `Resolved`.
    Resolve { from: String, target: String },
    /// The expansion has ended with this result.
    Done(Result<Deck, ParseError>),
}

/// The caller's answer to an action.
pub enum IncludeEvent {
    Normalized(String),
    ReadOk(String),
    ReadFailed(String),
    Resolved(String),
}

impl View for IncludeAction {
    type V = ActionView;

    open spec fn view(&self) -> ActionView {
        match self {
            IncludeAction::Normalize(p) => ActionView::Normalize(p@),
            IncludeAction::Read(p) => ActionView::Read(p@),
            IncludeAction::Resolve { from, target } => ActionView::Resolve(from@, target@),
            IncludeAction::Done(Ok(d)) => ActionView::Done(Ok(d@)),
            IncludeAction::Done(Err(e)) => ActionView::Done(Err(e@)),
        }
    }
}

impl View for IncludeEvent {
    type V = EventView;

    open spec fn view(&self) -> EventView {
        match self {
            IncludeEvent::Normalized(p) => EventView::Normalized(p@),
            IncludeEvent::ReadOk(t) => EventView::ReadOk(t@),
            IncludeEvent::ReadFailed(e) => EventView::ReadFailed(e@),
            IncludeEvent::Resolved(p) => EventView::Resolved(p@),
        }
    }
}

/// `s` without leading `c`s.
pub open spec fn strip_start(s: Seq<char>, c: char) -> Seq<char>
    decreases s.len(),
{
    if s.len() > 0 && s[0] == c {
        strip_start(s.drop_first(), c)
    } else {
        s
    }
}

/// `s` without trailing `c`s.
pub open spec fn strip_end(s: Seq<char>, c: char) -> Seq<char>
    decreases s.len(),
{
    if s.len() > 0 && s.last() == c {
        strip_end(s.drop_last(), c)
    } else {
        s
    }
}

/// `s` without leading and trailing `c`s (`str::trim_matches`).
pub open spec fn strip(s: Seq<char>, c: char) -> Seq<char> {
    strip_end(strip_start(s, c), c)
}

/// The path an `INPUT` value names: trimmed, then stripped of double and
/// then of single quotes.
pub open spec fn cleaned_include(raw: Seq<char>) -> Seq<char> {
    strip(strip(trim(raw), '"'), '\'')
}

/// For an `*INCLUDE` card, its `INPUT` value (if it has one); nothing for
/// other cards.
pub open spec fn include_target(c: CardView) -> Option<Option<Seq<char>>> {
    if normalized_view(c.keyword) == "INCLUDE"@ {
        Some(first_param_value(c.parameters, "INPUT"@))
    } else {
        None
    }
}

/// The note appended to an error for each include it passed through.
pub open spec fn include_note(path: Seq<char>) -> Seq<char> {
    " (while expanding include "@ + path + ")"@
}

/// Notes for the includes `ps`, innermost (last) first.
pub open spec fn wrap_tail(ps: Seq<Seq<char>>) -> Seq<char>
    decreases ps.len(),
{
    if ps.len() == 0 {
        seq![]
    } else {
        include_note(ps.last()) + wrap_tail(ps.drop_last())
    }
}

/// An error message as it reaches the root through the includes `ps`.
pub open spec fn wrap(msg: Seq<char>, ps: Seq<Seq<char>>) -> Seq<char> {
    msg + wrap_tail(ps)
}

/// `ps` joined with `sep`.
pub open spec fn joined(ps: Seq<Seq<char>>, sep: Seq<char>) -> Seq<char>
    decreases ps.len(),
{
    if ps.len() == 0 {
        seq![]
    } else if ps.len() == 1 {
        ps[0]
    } else {
        joined(ps.drop_last(), sep) + sep + ps.last()
    }
}

/// Paths by which the open includes were opened (the root excluded).
pub open spec fn include_paths(frames: Seq<FrameView>) -> Seq<Seq<char>> {
    if frames.len() == 0 {
        seq![]
    } else {
        frames.skip(1).map_values(|f: FrameView| f.path)
    }
}

/// Normalized paths of the open files.
pub open spec fn norms(frames: Seq<FrameView>) -> Seq<Seq<char>> {
    frames.map_values(|f: FrameView| f.norm)
}

/// The includes an error passes through when it arises while opening `q`.
pub open spec fn opening_paths(frames: Seq<FrameView>, q: Seq<char>) -> Seq<Seq<char>> {
    if frames.len() == 0 {
        seq![]
    } else {
        include_paths(frames).push(q)
    }
}

/// Message for an `*INCLUDE` card without `INPUT`.
pub open spec fn missing_input_message() -> Seq<char> {
    "missing INPUT parameter in *INCLUDE card"@
}

/// Message for an include cycle through `chain`.
pub open spec fn cycle_message(chain: Seq<Seq<char>>) -> Seq<char> {
    "include cycle detected: "@ + joined(chain, " -> "@)
}

/// Message for a file that could not be read.
pub open spec fn read_failed_message(path: Seq<char>, err: Seq<char>) -> Seq<char> {
    "failed to read "@ + path + ": "@ + err
}

/// Cards left to copy in the open files.
pub open spec fn remaining(frames: Seq<FrameView>) -> nat
    decreases frames.len(),
{
    if frames.len() == 0 {
        0
    } else {
        remaining(frames.drop_last()) + if frames.last().next <= frames.last().cards.len() {
            (frames.last().cards.len() - frames.last().next) as nat
        } else {
            0nat
        }
    }
}

/// Copies cards from the innermost open file, closing each file when its
/// cards are done, until an `*INCLUDE` card asks for a file (or lacks its
/// `INPUT`), or the root is done.
pub open spec fn advance(v: ExpanderView) -> (ExpanderView, ActionView)
    decreases remaining(v.frames) + v.frames.len(),
{
    if v.frames.len() == 0 {
        (
            ExpanderView { frames: v.frames, out: seq![], phase: PhaseView::Finished },
            ActionView::Done(Ok(v.out)),
        )
    } else {
        let l = v.frames.len() - 1;
        let top = v.frames[l];
        if top.next >= top.cards.len() {
            advance(ExpanderView { frames: v.frames.drop_last(), ..v })
        } else {
            let c = top.cards[top.next as int];
            let frames = v.frames.update(l, FrameView { next: top.next + 1, ..top });
            let out = v.out.push(c);
            match include_target(c) {
                None => {
                    proof {
                        assert(frames.drop_last() =~= v.frames.drop_last());
                    }
                    advance(ExpanderView { frames, out, phase: v.phase })
                },
                Some(None) => (
                    ExpanderView { frames, out, phase: PhaseView::Finished },
                    ActionView::Done(Err(ErrorView {
                        line: c.line_start,
                        message: wrap(missing_input_message(), include_paths(v.frames)),
                    })),
                ),
                Some(Some(raw)) => (
                    ExpanderView { frames, out, phase: PhaseView::AwaitResolve },
                    ActionView::Resolve(top.path, cleaned_include(raw)),
                ),
            }
        }
    }
}

/// Whether the expander, in state `v`, waits for event `e`.
pub open spec fn expects(v: ExpanderView, e: EventView) -> bool {
    match v.phase {
        PhaseView::AwaitResolve => e is Resolved,
        PhaseView::AwaitNormalize(_) => e is Normalized,
        PhaseView::AwaitRead(_, _) => e is ReadOk || e is ReadFailed,
        PhaseView::Finished => false,
    }
}

/// The state and action after event `e` in state `v`.
pub open spec fn step_spec(v: ExpanderView, e: EventView) -> (ExpanderView, ActionView) {
    match v.phase {
        PhaseView::AwaitResolve => match e {
            EventView::Resolved(q) => (
                ExpanderView { phase: PhaseView::AwaitNormalize(q), ..v },
                ActionView::Normalize(q),
            ),
            _ => (v, ActionView::Done(Ok(v.out))),
        },
        PhaseView::AwaitNormalize(q) => match e {
            EventView::Normalized(n) => if norms(v.frames).contains(n) {
                (
                    ExpanderView { phase: PhaseView::Finished, ..v },
                    ActionView::Done(Err(ErrorView {
                        line: 0,
                        message: wrap(cycle_message(norms(v.frames).push(n)), opening_paths(v.frames, q)),
                    })),
                )
            } else {
                (ExpanderView { phase: PhaseView::AwaitRead(q, n), ..v }, ActionView::Read(q))
            },
            _ => (v, ActionView::Done(Ok(v.out))),
        },
        PhaseView::AwaitRead(q, n) => match e {
            EventView::ReadFailed(err) => (
                ExpanderView { phase: PhaseView::Finished, ..v },
                ActionView::Done(Err(ErrorView {
                    line: 0,
                    message: wrap(read_failed_message(q, err), opening_paths(v.frames, q)),
                })),
            ),
            EventView::ReadOk(text) => match parse_deck(Dialect::Extended, text) {
                Err(pe) => (
                    ExpanderView { phase: PhaseView::Finished, ..v },
                    ActionView::Done(Err(ErrorView {
                        line: pe.line,
                        message: wrap(pe.message, opening_paths(v.frames, q)),
                    })),
                ),
                Ok(cards) => advance(ExpanderView {
                    frames: v.frames.push(FrameView { path: q, norm: n, cards, next: 0 }),
                    out: v.out,
                    phase: PhaseView::AwaitResolve,
                }),
            },
            _ => (v, ActionView::Done(Ok(v.out))),
        },
        PhaseView::Finished => (v, ActionView::Done(Ok(v.out))),
    }
}

/// No file is open twice, and no open file has copied past its end.
pub open spec fn expander_wf(v: ExpanderView) -> bool {
    &&& forall|i: int, j: int| 0 <= i < j < v.frames.len() ==> #[trigger] v.frames[i].norm != #[trigger] v.frames[j].norm
    &&& forall|i: int| 0 <= i < v.frames.len() ==> #[trigger] v.frames[i].next <= v.frames[i].cards.len()
    &&& (v.phase is AwaitRead ==> !norms(v.frames).contains(v.phase->AwaitRead_1))
}

proof fn lemma_remaining_step(frames: Seq<FrameView>, t: FrameView)
    requires
        frames.len() > 0,
        frames.last().next < frames.last().cards.len(),
        t == (FrameView { next: frames.last().next + 1, ..frames.last() }),
    ensures
        remaining(frames.update(frames.len() - 1, t)) + 1 == remaining(frames),
{
    assert(frames.update(frames.len() - 1, t).drop_last() =~= frames.drop_last());
}

/// Copying cards keeps the expander well formed.
pub proof fn lemma_advance_wf(v: ExpanderView)
    requires
        expander_wf(v),
    ensures
        expander_wf(advance(v).0),
    decreases remaining(v.frames) + v.frames.len(),
{
    if v.frames.len() > 0 {
        let l = v.frames.len() - 1;
        let top = v.frames[l];
        if top.next >= top.cards.len() {
            let w = ExpanderView { frames: v.frames.drop_last(), ..v };
            assert(norms(w.frames) =~= norms(v.frames).drop_last());
            if v.phase is AwaitRead {
                if norms(w.frames).contains(v.phase->AwaitRead_1) {
                    let k = choose|k: int| 0 <= k < norms(w.frames).len() && norms(w.frames)[k] == v.phase->AwaitRead_1;
                    assert(norms(v.frames)[k] == v.phase->AwaitRead_1);
                }
            }
            lemma_advance_wf(w);
        } else {
            let c = top.cards[top.next as int];
            let t = FrameView { next: top.next + 1, ..top };
            let frames = v.frames.update(l, t);
            lemma_remaining_step(v.frames, t);
            assert(norms(frames) =~= norms(v.frames));
            let w = ExpanderView { frames, out: v.out.push(c), phase: v.phase };
            assert(expander_wf(w));
            if include_target(c) is None {
                lemma_advance_wf(w);
            }
        }
    }
}

proof fn lemma_advance_plain(v: ExpanderView)
    requires
        v.frames.len() == 1,
        v.frames[0].next <= v.frames[0].cards.len(),
        v.out == v.frames[0].cards.take(v.frames[0].next as int),
        forall|i: int| 0 <= i < v.frames[0].cards.len() ==> include_target(#[trigger] v.frames[0].cards[i]) is None,
    ensures
        advance(v).1 == ActionView::Done(Ok(v.frames[0].cards)),
    decreases v.frames[0].cards.len() - v.frames[0].next,
{
    let top = v.frames[0];
    if top.next >= top.cards.len() {
        assert(v.out =~= top.cards);
        let w = ExpanderView { frames: v.frames.drop_last(), ..v };
        assert(advance(w).1 == ActionView::Done(Ok(w.out)));
    } else {
        let c = top.cards[top.next as int];
        let t = FrameView { next: top.next + 1, ..top };
        let w = ExpanderView { frames: v.frames.update(0, t), out: v.out.push(c), phase: v.phase };
        assert(w.out =~= top.cards.take(top.next as int + 1));
        lemma_advance_plain(w);
    }
}

/// A file none of whose cards is an `*INCLUDE` expands to exactly what
/// parsing it gives: its cards, or its parse error.
pub proof fn lemma_expansion_without_includes(root: Seq<char>, n: Seq<char>, text: Seq<char>)
    requires
        parse_deck(Dialect::Extended, text) matches Ok(cards) ==> forall|i: int|
            0 <= i < cards.len() ==> include_target(#[trigger] cards[i]) is None,
    ensures
        ({
            let s0 = ExpanderView { frames: seq![], out: seq![], phase: PhaseView::AwaitNormalize(root) };
            let s1 = step_spec(s0, EventView::Normalized(n));
            &&& s1.1 == ActionView::Read(root)
            &&& step_spec(s1.0, EventView::ReadOk(text)).1 == ActionView::Done(parse_deck(Dialect::Extended, text))
        }),
{
    let s0 = ExpanderView { frames: seq![], out: seq![], phase: PhaseView::AwaitNormalize(root) };
    assert(norms(s0.frames) =~= Seq::<Seq<char>>::empty());
    let s1 = step_spec(s0, EventView::Normalized(n));
    match parse_deck(Dialect::Extended, text) {
        Ok(cards) => {
            let w = ExpanderView {
                frames: s1.0.frames.push(FrameView { path: root, norm: n, cards, next: 0 }),
                out: s1.0.out,
                phase: PhaseView::AwaitResolve,
            };
            assert(w.out =~= cards.take(0));
            lemma_advance_plain(w);
        },
        Err(pe) => {
            assert(wrap(pe.message, opening_paths(s1.0.frames, root)) =~= pe.message);
        },
    }
}


/// Copying resumes in the innermost open file: when its next cards up to
/// an `*INCLUDE` card are plain cards, the expander asks for that include's
/// target resolved against the path the innermost file was opened by, the
/// file that names it.
pub proof fn lemma_include_resolves_in_innermost_file(v: ExpanderView, k: int, raw: Seq<char>)
    requires
        v.frames.len() > 0,
        v.frames.last().next <= k < v.frames.last().cards.len(),
        forall|i: int| v.frames.last().next <= i < k ==> include_target(#[trigger] v.frames.last().cards[i]) is None,
        include_target(v.frames.last().cards[k]) == Some(Some(raw)),
    ensures
        advance(v).1 == ActionView::Resolve(v.frames.last().path, cleaned_include(raw)),
    decreases k - v.frames.last().next,
{
    let l = v.frames.len() - 1;
    let top = v.frames[l];
    let c = top.cards[top.next as int];
    let frames = v.frames.update(l, FrameView { next: top.next + 1, ..top });
    if top.next < k {
        assert(include_target(c) is None);
        let w = ExpanderView { frames, out: v.out.push(c), phase: v.phase };
        assert(w.frames.last() == FrameView { next: top.next + 1, ..top });
        lemma_include_resolves_in_innermost_file(w, k, raw);
    }
}

/// A file opened by path `q` that holds an `*INCLUDE` card after plain
/// cards asks, once read, for that include's target resolved against `q`:
/// an include names its file relative to the file that holds it, whether
/// that is the root or itself an include.
pub proof fn lemma_read_file_resolves_its_includes(
    v: ExpanderView,
    q: Seq<char>,
    n: Seq<char>,
    text: Seq<char>,
    k: int,
    raw: Seq<char>,
)
    requires
        v.phase == PhaseView::AwaitRead(q, n),
        parse_deck(Dialect::Extended, text) matches Ok(cards) && 0 <= k < cards.len()
            && (forall|i: int| 0 <= i < k ==> include_target(#[trigger] cards[i]) is None)
            && include_target(cards[k]) == Some(Some(raw)),
    ensures
        step_spec(v, EventView::ReadOk(text)).1 == ActionView::Resolve(q, cleaned_include(raw)),
{
    let cards = parse_deck(Dialect::Extended, text)->Ok_0;
    let w = ExpanderView {
        frames: v.frames.push(FrameView { path: q, norm: n, cards, next: 0 }),
        out: v.out,
        phase: PhaseView::AwaitResolve,
    };
    assert(w.frames.last() == FrameView { path: q, norm: n, cards, next: 0 });
    lemma_include_resolves_in_innermost_file(w, k, raw);
}

struct Frame {
    path: String,
    norm: String,
    cards: Vec<Card>,
    next: usize,
}

enum Phase {
    AwaitResolve,
    AwaitNormalize(String),
    AwaitRead(String, String),
    Finished,
}

spec fn frame_view(f: Frame) -> FrameView {
    FrameView {
        path: f.path@,
        norm: f.norm@,
        cards: f.cards@.map_values(|c: Card| c@),
        next: f.next as nat,
    }
}

spec fn phase_view(p: Phase) -> PhaseView {
    match p {
        Phase::AwaitResolve => PhaseView::AwaitResolve,
        Phase::AwaitNormalize(q) => PhaseView::AwaitNormalize(q@),
        Phase::AwaitRead(q, n) => PhaseView::AwaitRead(q@, n@),
        Phase::Finished => PhaseView::Finished,
    }
}

/// An `*INCLUDE` expansion in progress.
pub struct IncludeExpander {
    frames: Vec<Frame>,
    out: Vec<Card>,
    phase: Phase,
}

impl View for IncludeExpander {
    type V = ExpanderView;

    closed spec fn view(&self) -> ExpanderView {
        ExpanderView {
            frames: self.frames@.map_values(|f: Frame| frame_view(f)),
            out: self.out@.map_values(|c: Card| c@),
            phase: phase_view(self.phase),
        }
    }
}

fn strip_start_at(s: &Vec<char>, c: char) -> (k: usize)
    ensures
        k <= s@.len(),
        strip_start(s@, c) == s@.skip(k as int),
{
    let mut k: usize = 0;
    assert(s@.skip(0) =~= s@);
    while k < s.len() && s[k] == c
        invariant
            k <= s@.len(),
            strip_start(s@, c) == strip_start(s@.skip(k as int), c),
        decreases s.len() - k,
    {
        assert(s@.skip(k as int).drop_first() =~= s@.skip(k + 1));
        k += 1;
    }
    k
}

fn strip_end_at(s: &Vec<char>, c: char) -> (e: usize)
    ensures
        e <= s@.len(),
        strip_end(s@, c) == s@.take(e as int),
{
    let mut e: usize = s.len();
    assert(s@.take(s@.len() as int) =~= s@);
    while e > 0 && s[e - 1] == c
        invariant
            e <= s@.len(),
            strip_end(s@, c) == strip_end(s@.take(e as int), c),
        decreases e,
    {
        assert(s@.take(e as int).drop_last() =~= s@.take(e - 1));
        e -= 1;
    }
    e
}

fn sub_chars(s: &Vec<char>, a: usize, b: usize) -> (r: Vec<char>)
    requires
        a <= b <= s@.len(),
    ensures
        r@ == s@.subrange(a as int, b as int),
{
    let mut r: Vec<char> = Vec::new();
    let mut i: usize = a;
    while i < b
        invariant
            a <= i <= b <= s@.len(),
            r@ == s@.subrange(a as int, i as int),
        decreases b - i,
    {
        r.push(s[i]);
        assert(s@.subrange(a as int, i + 1) =~= s@.subrange(a as int, i as int).push(s@[i as int]));
        i += 1;
    }
    r
}

fn strip_chars(s: &Vec<char>, c: char) -> (r: Vec<char>)
    ensures
        r@ == strip(s@, c),
{
    let k = strip_start_at(s, c);
    let t = sub_chars(s, k, s.len());
    assert(t@ =~= s@.skip(k as int));
    let e = strip_end_at(&t, c);
    let r = sub_chars(&t, 0, e);
    assert(r@ =~= t@.take(e as int));
    r
}

/// The path an `INPUT` value names (see `cleaned_include`).
pub fn clean_target(raw: &str) -> (r: String)
    ensures
        r@ == cleaned_include(raw@),
{
    let v = chars_of(raw);
    let t = trim_chars(v.as_slice());
    let a = strip_chars(&t, '"');
    let b = strip_chars(&a, '\'');
    string_from(b.as_slice())
}

/// View of what `target_of` returns.
pub open spec fn target_view(t: Option<Option<String>>) -> Option<Option<Seq<char>>> {
    match t {
        None => None,
        Some(o) => Some(opt_view(o)),
    }
}

/// For an `*INCLUDE` card, its `INPUT` value (see `include_target`).
pub fn target_of(card: &Card) -> (r: Option<Option<String>>)
    ensures
        target_view(r) == include_target(card@),
{
    let k = normalized(card.keyword.as_str());
    if !str_eq(k.as_str(), "INCLUDE") {
        return None;
    }
    let ps = &card.parameters;
    let ghost pv = ps@.map_values(|p: Parameter| p@);
    assert(pv.skip(0) =~= pv);
    let mut i: usize = 0;
    while i < ps.len()
        invariant
            pv == ps@.map_values(|p: Parameter| p@),
            pv == card@.parameters,
            normalized_view(card@.keyword) == "INCLUDE"@,
            i <= ps@.len(),
            first_param_value(pv, "INPUT"@) == first_param_value(pv.skip(i as int), "INPUT"@),
        decreases ps.len() - i,
    {
        if str_eq(ps[i].key.as_str(), "INPUT") {
            assert(pv.skip(i as int)[0] == pv[i as int]);
            assert(pv[i as int].key == "INPUT"@);
            let v = match &ps[i].value {
                Some(s) => Some(s.clone()),
                None => None,
            };
            assert(opt_view(v) == pv[i as int].value);
            assert(first_param_value(pv.skip(i as int), "INPUT"@) == pv[i as int].value);
            assert(include_target(card@) == Some(pv[i as int].value));
            return Some(v);
        }
        assert(pv.skip(i as int).drop_first() =~= pv.skip(i + 1));
        i += 1;
    }
    assert(pv.skip(i as int) =~= Seq::<crate::deck::ParamView>::empty());
    Some(None)
}

proof fn lemma_wrap_tail_take(ps: Seq<Seq<char>>, j: int)
    requires
        0 < j <= ps.len(),
    ensures
        wrap_tail(ps.take(j)) == include_note(ps[j - 1]) + wrap_tail(ps.take(j - 1)),
{
    assert(ps.take(j).drop_last() =~= ps.take(j - 1));
}

fn push_note(s: &mut String, path: &str)
    ensures
        final(s)@ == old(s)@ + include_note(path@),
{
    push_str(s, " (while expanding include ");
    push_str(s, path);
    push_str(s, ")");
}

impl IncludeExpander {
    /// `msg` with the notes of the open includes, and first that of `q`
    /// when the error arose while opening `q` below the root.
    fn wrap_message(&self, msg: String, opening: Option<&String>) -> (r: String)
        ensures
            r@ == wrap(msg@, match opening {
                Some(q) => opening_paths(self@.frames, q@),
                None => include_paths(self@.frames),
            }),
    {
        let ghost fv = self@.frames;
        let ghost ps = include_paths(fv);
        let mut s = msg;
        if self.frames.len() > 0 {
            match opening {
                Some(q) => {
                    push_note(&mut s, q.as_str());
                    assert(ps.push(q@).drop_last() =~= ps);
                },
                None => {},
            }
        }
        let ghost base = s@;
        let mut j: usize = if self.frames.len() > 0 { self.frames.len() - 1 } else { 0 };
        assert(ps.len() == j);
        assert(ps.take(j as int) =~= ps);
        while j > 0
            invariant
                fv == self@.frames,
                ps == include_paths(fv),
                j <= ps.len(),
                ps.len() == if fv.len() > 0 { fv.len() - 1 } else { 0 },
                base + wrap_tail(ps) == s@ + wrap_tail(ps.take(j as int)),
            decreases j,
        {
            proof {
                lemma_wrap_tail_take(ps, j as int);
            }
            assert(ps[j - 1] == self.frames@[j as int].path@) by {
                assert(ps[j - 1] == fv.skip(1)[j - 1].path);
            }
            push_note(&mut s, self.frames[j].path.as_str());
            j -= 1;
        }
        assert(ps.take(0) =~= Seq::<Seq<char>>::empty());
        s
    }

    /// The message of a cycle through the open files and `n`.
    fn cycle_text(&self, n: &String) -> (r: String)
        ensures
            r@ == cycle_message(norms(self@.frames).push(n@)),
    {
        let ghost ns = norms(self@.frames);
        let mut s = owned("include cycle detected: ");
        let ghost base = s@;
        let mut i: usize = 0;
        while i < self.frames.len()
            invariant
                ns == norms(self@.frames),
                i <= ns.len(),
                s@ == base + joined(ns.take(i as int), " -> "@) + if i > 0 { " -> "@ } else { seq![] },
            decreases self.frames.len() - i,
        {
            let ghost before = s@;
            push_str(&mut s, self.frames[i].norm.as_str());
            assert(ns.take(i + 1).drop_last() =~= ns.take(i as int));
            if i == 0 {
                assert(joined(ns.take(1), " -> "@) == ns[0]);
            }
            push_str(&mut s, " -> ");
            i += 1;
        }
        push_str(&mut s, n.as_str());
        proof {
            let full = ns.push(n@);
            assert(ns.take(i as int) =~= ns);
            assert(full.drop_last() =~= ns);
            if ns.len() == 0 {
                assert(joined(full, " -> "@) == n@);
            }
        }
        s
    }

    /// Copies cards until the next action (see `advance`).
    fn advance_exec(&mut self) -> (r: IncludeAction)
        ensures
            (final(self)@, r@) == advance(old(self)@),
    {
        loop
            invariant
                advance(self@) == advance(old(self)@),
            decreases remaining(self@.frames) + self@.frames.len(),
        {
            let ghost v = self@;
            if self.frames.len() == 0 {
                let mut cards: Vec<Card> = Vec::new();
                std::mem::swap(&mut cards, &mut self.out);
                self.phase = Phase::Finished;
                assert(self@.out =~= Seq::<CardView>::empty());
                assert(cards@.map_values(|c: Card| c@) =~= v.out);
                assert(self@.frames =~= v.frames);
                assert(self@ =~= ExpanderView { frames: v.frames, out: seq![], phase: PhaseView::Finished });
                return IncludeAction::Done(Ok(Deck { cards }));
            }
            let top = self.frames.pop().unwrap();
            assert(frame_view(top) == v.frames.last());
            assert(self@.frames =~= v.frames.drop_last());
            if top.next >= top.cards.len() {
                assert(self@ =~= ExpanderView { frames: v.frames.drop_last(), ..v });
                continue;
            }
            let mut top = top;
            let c = copy_card(&top.cards[top.next]);
            let line = c.line_start;
            top.next = top.next + 1;
            let target = target_of(&c);
            let from = top.path.clone();
            let ghost top_view = frame_view(top);
            self.frames.push(top);
            self.out.push(c);
            let ghost l = v.frames.len() - 1;
            proof {
                lemma_remaining_step(v.frames, top_view);
            }
            assert(self@.frames =~= v.frames.update(l, top_view));
            assert(self@.out =~= v.out.push(c@));
            match target {
                None => {
                    assert(self@ =~= ExpanderView { frames: v.frames.update(l, top_view), out: v.out.push(c@), phase: v.phase });
                },
                Some(None) => {
                    self.phase = Phase::Finished;
                    assert(include_paths(self@.frames) =~= include_paths(v.frames));
                    let msg = self.wrap_message(owned("missing INPUT parameter in *INCLUDE card"), None);
                    return IncludeAction::Done(Err(ParseError { line, message: msg }));
                },
                Some(Some(raw)) => {
                    self.phase = Phase::AwaitResolve;
                    let t = clean_target(raw.as_str());
                    return IncludeAction::Resolve { from, target: t };
                },
            }
        }
    }

    /// Starts the expansion of the file at `root`.
    pub fn start(root: String) -> (r: (IncludeExpander, IncludeAction))
        ensures
            r.0@ == (ExpanderView { frames: seq![], out: seq![], phase: PhaseView::AwaitNormalize(root@) }),
            r.1@ == ActionView::Normalize(root@),
            expander_wf(r.0@),
    {
        let q = root.clone();
        let e = IncludeExpander { frames: Vec::new(), out: Vec::new(), phase: Phase::AwaitNormalize(root) };
        assert(e@.frames =~= Seq::<FrameView>::empty());
        assert(e@.out =~= Seq::<CardView>::empty());
        (e, IncludeAction::Normalize(q))
    }

    /// Takes the caller's answer to the last action and returns the next
    /// action (see `step_spec`).
    pub fn step(&mut self, event: IncludeEvent) -> (r: IncludeAction)
        requires
            expects(old(self)@, event@),
            expander_wf(old(self)@),
        ensures
            (final(self)@, r@) == step_spec(old(self)@, event@),
            expander_wf(final(self)@),
    {
        let ghost v = self@;
        let ghost ev = event@;
        let mut phase = Phase::Finished;
        std::mem::swap(&mut phase, &mut self.phase);
        match phase {
            Phase::AwaitResolve => match event {
                IncludeEvent::Resolved(q) => {
                    let a = q.clone();
                    self.phase = Phase::AwaitNormalize(q);
                    assert(self@ =~= ExpanderView { phase: PhaseView::AwaitNormalize(a@), ..v });
                    IncludeAction::Normalize(a)
                },
                _ => {
                    proof { assert(false); }
                    IncludeAction::Normalize(owned(""))
                },
            },
            Phase::AwaitNormalize(q) => match event {
                IncludeEvent::Normalized(n) => {
                    assert(self@ =~= ExpanderView { phase: PhaseView::Finished, ..v });
                    let ghost ns = norms(v.frames);
                    let mut i: usize = 0;
                    while i < self.frames.len()
                        invariant
                            self@ == (ExpanderView { phase: PhaseView::Finished, ..v }),
                            v.phase == PhaseView::AwaitNormalize(q@),
                            ev == EventView::Normalized(n@),
                            v == old(self)@,
                            ev == event@,
                            expander_wf(v),
                            self@.frames == v.frames,
                            ns == norms(v.frames),
                            i <= ns.len(),
                            forall|j: int| 0 <= j < i ==> ns[j] != n@,
                        decreases self.frames.len() - i,
                    {
                        if str_eq(self.frames[i].norm.as_str(), n.as_str()) {
                            assert(ns[i as int] == n@);
                            assert(ns.contains(n@));
                            let body = self.cycle_text(&n);
                            let msg = self.wrap_message(body, Some(&q));
                            let r = IncludeAction::Done(Err(ParseError { line: 0, message: msg }));
                            assert(step_spec(v, ev).0 == self@);
                            assert(step_spec(v, ev).1 == r@);
                            return r;
                        }
                        i += 1;
                    }
                    assert(!ns.contains(n@));
                    let a = q.clone();
                    self.phase = Phase::AwaitRead(q, n);
                    assert(self@ =~= ExpanderView { phase: PhaseView::AwaitRead(a@, self@.phase->AwaitRead_1), ..v });
                    IncludeAction::Read(a)
                },
                _ => {
                    proof { assert(false); }
                    IncludeAction::Normalize(owned(""))
                },
            },
            Phase::AwaitRead(q, n) => match event {
                IncludeEvent::ReadFailed(err) => {
                    let mut body = owned("failed to read ");
                    push_str(&mut body, q.as_str());
                    push_str(&mut body, ": ");
                    push_str(&mut body, err.as_str());
                    let msg = self.wrap_message(body, Some(&q));
                    assert(self@ =~= ExpanderView { phase: PhaseView::Finished, ..v });
                    IncludeAction::Done(Err(ParseError { line: 0, message: msg }))
                },
                IncludeEvent::ReadOk(text) => match Deck::parse_str(text.as_str()) {
                    Err(pe) => {
                        let msg = self.wrap_message(pe.message, Some(&q));
                        assert(self@ =~= ExpanderView { phase: PhaseView::Finished, ..v });
                        IncludeAction::Done(Err(ParseError { line: pe.line, message: msg }))
                    },
                    Ok(deck) => {
                        let ghost cards = deck@;
                        let frame = Frame { path: q, norm: n, cards: deck.cards, next: 0 };
                        self.frames.push(frame);
                        self.phase = Phase::AwaitResolve;
                        let ghost w = ExpanderView {
                            frames: v.frames.push(FrameView { path: q@, norm: v.phase->AwaitRead_1, cards, next: 0 }),
                            out: v.out,
                            phase: PhaseView::AwaitResolve,
                        };
                        assert(self@.frames =~= w.frames);
                        assert(self@ =~= w);
                        proof {
                            assert(norms(w.frames) =~= norms(v.frames).push(v.phase->AwaitRead_1));
                            assert forall|i: int, j: int| 0 <= i < j < w.frames.len() implies #[trigger] w.frames[i].norm != #[trigger] w.frames[j].norm by {
                                if j == w.frames.len() - 1 {
                                    assert(norms(v.frames)[i] == w.frames[i].norm);
                                }
                            }
                            assert(expander_wf(w));
                            lemma_advance_wf(w);
                        }
                        self.advance_exec()
                    },
                },
                _ => {
                    proof { assert(false); }
                    IncludeAction::Normalize(owned(""))
                },
            },
            Phase::Finished => {
                proof { assert(false); }
                IncludeAction::Normalize(owned(""))
            },
        }
    }
}

} // verus!
