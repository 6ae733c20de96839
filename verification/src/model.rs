//! Summary of a parsed deck: card and data-line counts, the tally of card
//! keywords, include files, and which analysis steps the deck asks for.
use vstd::prelude::*;
use crate::deck::{CardView, ParamView};
use crate::inp_basic::{Card, Deck, Parameter};
use crate::order::{lex_lt, lex_less, lemma_lex_irreflexive, lemma_lex_transitive, lemma_lex_total};
use crate::text::{ascii_upper_seq, is_ws, is_whitespace, to_ascii_upper_char, push_char, chars_of, str_eq};
use crate::inp::opt_view;

verus! {

broadcast use vstd::string::group_string_axioms;

/// Counts and flags of a deck.
#[derive(Debug, Clone, PartialEq, Eq)]
pub struct ModelSummary {
    pub total_cards: usize,
    pub total_data_lines: usize,
    /// Distinct card keywords in ascending order, each with its card count:
    /// a list ordered by key, whose contents the contracts state entry by
    /// entry.
    pub keyword_counts: Vec<(String, usize)>,
    pub include_files: Vec<String>,
    pub material_defs: usize,
    pub node_rows: usize,
    pub element_rows: usize,
    pub has_step: bool,
    pub has_static: bool,
    pub has_dynamic: bool,
    pub has_frequency: bool,
    pub has_heat_transfer: bool,
}

/// A keyword with white space and underscores removed and ASCII letters
/// upper-cased, so that `*HEAT TRANSFER` and `*Heat_Transfer` compare equal.
pub open spec fn normalized_view(kw: Seq<char>) -> Seq<char> {
    ascii_upper_seq(kw.filter(|c: char| !is_ws(c) && c != '_'))
}

/// The value of the first parameter named `key`, if that parameter has one.
pub open spec fn first_param_value(ps: Seq<ParamView>, key: Seq<char>) -> Option<Seq<char>>
    decreases ps.len(),
{
    if ps.len() == 0 {
        None
    } else if ps[0].key == key {
        ps[0].value
    } else {
        first_param_value(ps.drop_first(), key)
    }
}

/// The `INPUT` file named by a card.
pub open spec fn include_input_view(c: CardView) -> Option<Seq<char>> {
    first_param_value(c.parameters, "INPUT"@)
}

/// What a summary counts, gathered card by card.
pub struct TallyView {
    pub total_data_lines: nat,
    pub include_files: Seq<Seq<char>>,
    pub material_defs: nat,
    pub node_rows: nat,
    pub element_rows: nat,
    pub has_step: bool,
    pub has_static: bool,
    pub has_dynamic: bool,
    pub has_frequency: bool,
    pub has_heat_transfer: bool,
}

/// The tally after one more card.
pub open spec fn tally_step(t: TallyView, c: CardView) -> TallyView {
    let n = normalized_view(c.keyword);
    let t = TallyView { total_data_lines: t.total_data_lines + c.data_lines.len(), ..t };
    if n == "STEP"@ {
        TallyView { has_step: true, ..t }
    } else if n == "STATIC"@ {
        TallyView { has_static: true, ..t }
    } else if n == "DYNAMIC"@ {
        TallyView { has_dynamic: true, ..t }
    } else if n == "FREQUENCY"@ {
        TallyView { has_frequency: true, ..t }
    } else if n == "HEATTRANSFER"@ {
        TallyView { has_heat_transfer: true, ..t }
    } else if n == "MATERIAL"@ {
        TallyView { material_defs: t.material_defs + 1, ..t }
    } else if n == "NODE"@ {
        TallyView { node_rows: t.node_rows + c.data_lines.len(), ..t }
    } else if n == "ELEMENT"@ {
        TallyView { element_rows: t.element_rows + c.data_lines.len(), ..t }
    } else if n == "INCLUDE"@ {
        match include_input_view(c) {
            Some(f) => TallyView { include_files: t.include_files.push(f), ..t },
            None => t,
        }
    } else {
        t
    }
}

/// The tally of the first `n` cards.
pub open spec fn tally_run(cards: Seq<CardView>, n: int) -> TallyView
    decreases n,
{
    if n <= 0 {
        TallyView {
            total_data_lines: 0,
            include_files: seq![],
            material_defs: 0,
            node_rows: 0,
            element_rows: 0,
            has_step: false,
            has_static: false,
            has_dynamic: false,
            has_frequency: false,
            has_heat_transfer: false,
        }
    } else {
        tally_step(tally_run(cards, n - 1), cards[n - 1])
    }
}

/// The tally of a whole deck.
pub open spec fn deck_tally(cards: Seq<CardView>) -> TallyView {
    tally_run(cards, cards.len() as int)
}

/// Number of cards with keyword `k`.
pub open spec fn keyword_count(cards: Seq<CardView>, k: Seq<char>) -> nat {
    cards.filter(|c: CardView| c.keyword == k).len()
}

/// `kc` lists each keyword of `cards` once, in ascending order, with the
/// number of cards that carry it.
pub open spec fn is_keyword_tally(kc: Seq<(Seq<char>, nat)>, cards: Seq<CardView>) -> bool {
    &&& forall|i: int, j: int| 0 <= i < j < kc.len() ==> lex_lt(kc[i].0, kc[j].0)
    &&& forall|i: int| 0 <= i < kc.len() ==> kc[i].1 == keyword_count(cards, kc[i].0) && kc[i].1 >= 1
    &&& forall|j: int| 0 <= j < cards.len() ==> exists|i: int| 0 <= i < kc.len() && kc[i].0 == #[trigger] cards[j].keyword
}

/// View of the keyword tally.
pub open spec fn counts_view(v: Seq<(String, usize)>) -> Seq<(Seq<char>, nat)> {
    v.map_values(|p: (String, usize)| (p.0@, p.1 as nat))
}

/// `keyword` normalized (see `normalized_view`).
pub fn normalized(keyword: &str) -> (r: String)
    ensures
        r@ == normalized_view(keyword@),
{
    let chars = chars_of(keyword);
    let mut out = String::new();
    let mut i: usize = 0;
    while i < chars.len()
        invariant
            chars@ == keyword@,
            i <= chars@.len(),
            out@ == ascii_upper_seq(chars@.subrange(0, i as int).filter(|c: char| !is_ws(c) && c != '_')),
        decreases chars.len() - i,
    {
        let c = chars[i];
        let ghost before = chars@.subrange(0, i as int).filter(|c: char| !is_ws(c) && c != '_');
        proof {
            reveal_with_fuel(Seq::filter, 1);
            assert(chars@.subrange(0, i + 1).drop_last() =~= chars@.subrange(0, i as int));
        }
        if !is_whitespace(c) && c != '_' {
            push_char(&mut out, to_ascii_upper_char(c));
            assert(ascii_upper_seq(before.push(c)) =~= ascii_upper_seq(before).push(crate::text::ascii_upper(c)));
        }
        i += 1;
    }
    assert(chars@.subrange(0, chars@.len() as int) =~= chars@);
    out
}

proof fn lemma_first_param_value_skip(ps: Seq<ParamView>, key: Seq<char>, i: int)
    requires
        0 <= i <= ps.len(),
        forall|j: int| 0 <= j < i ==> ps[j].key != key,
    ensures
        first_param_value(ps, key) == first_param_value(ps.skip(i), key),
    decreases i,
{
    if i > 0 {
        lemma_first_param_value_skip(ps.drop_first(), key, i - 1);
        assert(ps.drop_first().skip(i - 1) =~= ps.skip(i));
    } else {
        assert(ps.skip(0) =~= ps);
    }
}

/// The `INPUT` file named by a card: the value of its first `INPUT` parameter.
pub fn include_input(card: &Card) -> (r: Option<String>)
    ensures
        opt_view(r) == include_input_view(card@),
{
    let ps = &card.parameters;
    let ghost pv = ps@.map_values(|p: Parameter| p@);
    let mut i: usize = 0;
    while i < ps.len()
        invariant
            pv == ps@.map_values(|p: Parameter| p@),
            pv == card@.parameters,
            i <= ps@.len(),
            forall|j: int| 0 <= j < i ==> pv[j].key != "INPUT"@,
        decreases ps.len() - i,
    {
        if str_eq(ps[i].key.as_str(), "INPUT") {
            proof {
                lemma_first_param_value_skip(pv, "INPUT"@, i as int);
                assert(pv.skip(i as int)[0] == pv[i as int]);
            }
            return match &ps[i].value {
                Some(v) => Some(v.clone()),
                None => None,
            };
        }
        i += 1;
    }
    proof {
        lemma_first_param_value_skip(pv, "INPUT"@, i as int);
    }
    None
}

/// Adds one card with keyword `kw` to a keyword tally over `cards`.
fn tally_keyword(kc: &mut Vec<(String, usize)>, kw: &String, Ghost(cards): Ghost<Seq<CardView>>, Ghost(c): Ghost<CardView>)
    requires
        c.keyword == kw@,
        is_keyword_tally(counts_view(old(kc)@), cards),
        cards.len() < usize::MAX,
    ensures
        is_keyword_tally(counts_view(final(kc)@), cards.push(c)),
{
    let ghost old_kc = counts_view(kc@);
    let ghost all = cards.push(c);
    let ghost pk = |x: CardView| x.keyword == kw@;
    proof {
        reveal_with_fuel(Seq::filter, 1);
        assert(all.drop_last() =~= cards);
        assert forall|k: Seq<char>| #![trigger keyword_count(all, k)] keyword_count(all, k)
            == keyword_count(cards, k) + (if k == kw@ { 1nat } else { 0nat }) by {
            reveal_with_fuel(Seq::filter, 1);
            assert(all.drop_last() =~= cards);
        }
    }
    let key = chars_of(kw.as_str());
    let mut p: usize = 0;
    while p < kc.len() && lex_less(chars_of(kc[p].0.as_str()).as_slice(), key.as_slice())
        invariant
            p <= kc@.len(),
            kc@ == old(kc)@,
            key@ == kw@,
            forall|i: int| 0 <= i < p ==> lex_lt(counts_view(kc@)[i].0, kw@),
        decreases kc.len() - p,
    {
        p += 1;
    }
    assert(old_kc == counts_view(kc@));
    if p < kc.len() && str_eq(kc[p].0.as_str(), kw.as_str()) {
        let n = kc[p].1;
        proof {
            cards.lemma_filter_len(|x: CardView| x.keyword == old_kc[p as int].0);
            assert(n == keyword_count(cards, kw@));
        }
        let k2 = kc[p].0.clone();
        kc.set(p, (k2, n + 1));
        proof {
            let nk = counts_view(kc@);
            assert(nk =~= old_kc.update(p as int, (kw@, (n + 1) as nat)));
            assert forall|j: int| 0 <= j < all.len() implies exists|i: int| 0 <= i < nk.len() && nk[i].0 == #[trigger] all[j].keyword by {
                if j < cards.len() {
                    assert(all[j] == cards[j]);
                    let i = choose|i: int| 0 <= i < old_kc.len() && old_kc[i].0 == cards[j].keyword;
                    assert(nk[i].0 == old_kc[i].0);
                } else {
                    assert(nk[p as int].0 == all[j].keyword);
                }
            }
            assert forall|i: int| 0 <= i < nk.len() implies nk[i].1 == keyword_count(all, nk[i].0) && nk[i].1 >= 1 by {
                if i != p {
                    assert(nk[i] == old_kc[i]);
                    if old_kc[i].0 == kw@ {
                        lemma_lex_irreflexive(kw@);
                        if i < p {
                            assert(lex_lt(old_kc[i].0, old_kc[p as int].0));
                        } else {
                            assert(lex_lt(old_kc[p as int].0, old_kc[i].0));
                        }
                    }
                }
            }
        }
    } else {
        proof {
            if p < kc.len() {
                assert(old_kc[p as int].0 != kw@);
                lemma_lex_total(old_kc[p as int].0, kw@);
            }
        }
        let ghost new_entry = (kw@, 1nat);
        kc.insert(p, (kw.clone(), 1));
        proof {
            let nk = counts_view(kc@);
            assert(nk =~= old_kc.insert(p as int, new_entry));
            assert forall|i: int, j: int| 0 <= i < j < nk.len() implies lex_lt(nk[i].0, nk[j].0) by {
                if j < p {
                    assert(nk[i] == old_kc[i] && nk[j] == old_kc[j]);
                } else if j == p {
                    assert(nk[i] == old_kc[i]);
                } else if i == p {
                    assert(nk[j] == old_kc[j - 1]);
                    if j - 1 > p {
                        lemma_lex_transitive(kw@, old_kc[p as int].0, old_kc[j - 1].0);
                    }
                } else if i < p {
                    assert(nk[i] == old_kc[i] && nk[j] == old_kc[j - 1]);
                } else {
                    assert(nk[i] == old_kc[i - 1] && nk[j] == old_kc[j - 1]);
                }
            }
            assert forall|i: int| 0 <= i < nk.len() implies nk[i].1 == keyword_count(all, nk[i].0) && nk[i].1 >= 1 by {
                if i == p {
                    assert(keyword_count(all, kw@) == keyword_count(cards, kw@) + 1);
                    if keyword_count(cards, kw@) > 0 {
                        assert(cards.filter(pk).len() > 0);
                        let x = cards.filter(pk)[0];
                        cards.lemma_filter_pred(pk, 0);
                        assert(cards.filter(pk).contains(x));
                        assert(x.keyword == kw@);
                        cards.lemma_filter_contains_rev(pk, x);
                        let j = choose|j: int| 0 <= j < cards.len() && cards[j] == x;
                        let w = choose|w: int| 0 <= w < old_kc.len() && old_kc[w].0 == #[trigger] cards[j].keyword;
                        if w < p {
                            assert(lex_lt(old_kc[w].0, kw@));
                            lemma_lex_irreflexive(kw@);
                        } else {
                            lemma_lex_irreflexive(kw@);
                            if w > p {
                                lemma_lex_transitive(kw@, old_kc[p as int].0, old_kc[w].0);
                            }
                        }
                    }
                } else if i < p {
                    assert(nk[i] == old_kc[i]);
                    lemma_lex_irreflexive(kw@);
                } else {
                    assert(nk[i] == old_kc[i - 1]);
                    lemma_lex_irreflexive(kw@);
                    if i - 1 > p {
                        lemma_lex_transitive(kw@, old_kc[p as int].0, old_kc[i - 1].0);
                    }
                }
            }
            assert forall|j: int| 0 <= j < all.len() implies exists|i: int| 0 <= i < nk.len() && nk[i].0 == #[trigger] all[j].keyword by {
                if j < cards.len() {
                    assert(all[j] == cards[j]);
                    let i = choose|i: int| 0 <= i < old_kc.len() && old_kc[i].0 == cards[j].keyword;
                    if i < p {
                        assert(nk[i].0 == old_kc[i].0);
                    } else {
                        assert(nk[i + 1].0 == old_kc[i].0);
                    }
                } else {
                    assert(nk[p as int].0 == all[j].keyword);
                }
            }
        }
    }
}

proof fn lemma_tally_monotone(cards: Seq<CardView>, k: int, n: int)
    requires
        0 <= k <= n <= cards.len(),
    ensures
        tally_run(cards, k).total_data_lines <= tally_run(cards, n).total_data_lines,
    decreases n - k,
{
    if k < n {
        lemma_tally_monotone(cards, k + 1, n);
    }
}

proof fn lemma_tally_bounds(cards: Seq<CardView>, k: int)
    requires
        0 <= k <= cards.len(),
    ensures
        tally_run(cards, k).node_rows + tally_run(cards, k).element_rows <= tally_run(cards, k).total_data_lines,
        tally_run(cards, k).material_defs <= k,
    decreases k,
{
    if k > 0 {
        lemma_tally_bounds(cards, k - 1);
    }
}

impl ModelSummary {
    /// The summary of `deck`: see `deck_tally` for counts and flags and
    /// `is_keyword_tally` for the keyword counts.
    pub fn from_deck(deck: &Deck) -> (r: ModelSummary)
        requires
            deck_tally(deck@).total_data_lines <= usize::MAX,
        ensures
            r.total_cards == deck@.len(),
            is_keyword_tally(counts_view(r.keyword_counts@), deck@),
            ({
                let t = deck_tally(deck@);
                &&& r.total_data_lines == t.total_data_lines
                &&& r.include_files@.map_values(|s: String| s@) == t.include_files
                &&& r.material_defs == t.material_defs
                &&& r.node_rows == t.node_rows
                &&& r.element_rows == t.element_rows
                &&& r.has_step == t.has_step
                &&& r.has_static == t.has_static
                &&& r.has_dynamic == t.has_dynamic
                &&& r.has_frequency == t.has_frequency
                &&& r.has_heat_transfer == t.has_heat_transfer
            }),
    {
        let ghost cv = deck@;
        let mut keyword_counts: Vec<(String, usize)> = Vec::new();
        let mut include_files: Vec<String> = Vec::new();
        let mut total_data_lines: usize = 0;
        let mut material_defs: usize = 0;
        let mut node_rows: usize = 0;
        let mut element_rows: usize = 0;
        let mut has_step = false;
        let mut has_static = false;
        let mut has_dynamic = false;
        let mut has_frequency = false;
        let mut has_heat_transfer = false;
        let mut k: usize = 0;
        assert(counts_view(keyword_counts@) =~= Seq::<(Seq<char>, nat)>::empty());
        assert(include_files@.map_values(|s: String| s@) =~= Seq::<Seq<char>>::empty());
        assert(cv.take(0) =~= Seq::<CardView>::empty());
        while k < deck.cards.len()
            invariant
                cv == deck@,
                cv.len() == deck.cards@.len(),
                k <= deck.cards@.len(),
                deck_tally(cv).total_data_lines <= usize::MAX,
                is_keyword_tally(counts_view(keyword_counts@), cv.take(k as int)),
                ({
                    let t = tally_run(cv, k as int);
                    &&& total_data_lines == t.total_data_lines
                    &&& include_files@.map_values(|s: String| s@) == t.include_files
                    &&& material_defs == t.material_defs
                    &&& node_rows == t.node_rows
                    &&& element_rows == t.element_rows
                    &&& has_step == t.has_step
                    &&& has_static == t.has_static
                    &&& has_dynamic == t.has_dynamic
                    &&& has_frequency == t.has_frequency
                    &&& has_heat_transfer == t.has_heat_transfer
                }),
            decreases deck.cards.len() - k,
        {
            let card = &deck.cards[k];
            assert(deck@[k as int] == deck.cards@[k as int]@);
            proof {
                lemma_tally_bounds(cv, k as int);
                lemma_tally_bounds(cv, k + 1);
                lemma_tally_monotone(cv, k + 1, cv.len() as int);
                assert(cv.take(k + 1) =~= cv.take(k as int).push(card@));
            }
            tally_keyword(&mut keyword_counts, &card.keyword, Ghost(cv.take(k as int)), Ghost(card@));
            let n = normalized(card.keyword.as_str());
            let lines = card.data_lines.len();
            total_data_lines = total_data_lines + lines;
            if str_eq(n.as_str(), "STEP") {
                has_step = true;
            } else if str_eq(n.as_str(), "STATIC") {
                has_static = true;
            } else if str_eq(n.as_str(), "DYNAMIC") {
                has_dynamic = true;
            } else if str_eq(n.as_str(), "FREQUENCY") {
                has_frequency = true;
            } else if str_eq(n.as_str(), "HEATTRANSFER") {
                has_heat_transfer = true;
            } else if str_eq(n.as_str(), "MATERIAL") {
                material_defs = material_defs + 1;
            } else if str_eq(n.as_str(), "NODE") {
                node_rows = node_rows + lines;
            } else if str_eq(n.as_str(), "ELEMENT") {
                element_rows = element_rows + lines;
            } else if str_eq(n.as_str(), "INCLUDE") {
                match include_input(card) {
                    Some(f) => {
                        let ghost before = include_files@.map_values(|s: String| s@);
                        include_files.push(f);
                        assert(include_files@.map_values(|s: String| s@) =~= before.push(f@));
                    },
                    None => {},
                }
            }
            k += 1;
        }
        assert(cv.take(cv.len() as int) =~= cv);
        ModelSummary {
            total_cards: deck.cards.len(),
            total_data_lines,
            keyword_counts,
            include_files,
            material_defs,
            node_rows,
            element_rows,
            has_step,
            has_static,
            has_dynamic,
            has_frequency,
            has_heat_transfer,
        }
    }
}

/// Sum of the counts of a keyword tally.
pub open spec fn counts_total(kc: Seq<(Seq<char>, nat)>) -> nat
    decreases kc.len(),
{
    if kc.len() == 0 {
        0
    } else {
        counts_total(kc.drop_last()) + kc.last().1
    }
}

spec fn count_sum(ks: Seq<Seq<char>>, cards: Seq<CardView>) -> nat
    decreases ks.len(),
{
    if ks.len() == 0 {
        0
    } else {
        count_sum(ks.drop_last(), cards) + keyword_count(cards, ks.last())
    }
}

spec fn hits(ks: Seq<Seq<char>>, w: Seq<char>) -> nat
    decreases ks.len(),
{
    if ks.len() == 0 {
        0
    } else {
        hits(ks.drop_last(), w) + if ks.last() == w { 1nat } else { 0nat }
    }
}

proof fn lemma_keyword_count_step(cards: Seq<CardView>, k: Seq<char>)
    requires
        cards.len() > 0,
    ensures
        keyword_count(cards, k) == keyword_count(cards.drop_last(), k)
            + if cards.last().keyword == k { 1nat } else { 0nat },
{
    reveal_with_fuel(Seq::filter, 1);
}

proof fn lemma_count_sum_step(ks: Seq<Seq<char>>, cards: Seq<CardView>)
    requires
        cards.len() > 0,
    ensures
        count_sum(ks, cards) == count_sum(ks, cards.drop_last()) + hits(ks, cards.last().keyword),
    decreases ks.len(),
{
    if ks.len() > 0 {
        lemma_count_sum_step(ks.drop_last(), cards);
        lemma_keyword_count_step(cards, ks.last());
    }
}

proof fn lemma_count_sum_empty(ks: Seq<Seq<char>>, cards: Seq<CardView>)
    requires
        cards.len() == 0,
    ensures
        count_sum(ks, cards) == 0,
    decreases ks.len(),
{
    reveal_with_fuel(Seq::filter, 1);
    if ks.len() > 0 {
        lemma_count_sum_empty(ks.drop_last(), cards);
    }
}

proof fn lemma_hits_once(ks: Seq<Seq<char>>, w: Seq<char>)
    requires
        forall|i: int, j: int| 0 <= i < j < ks.len() ==> ks[i] != ks[j],
    ensures
        ks.contains(w) ==> hits(ks, w) == 1,
        !ks.contains(w) ==> hits(ks, w) == 0,
    decreases ks.len(),
{
    if ks.len() > 0 {
        let d = ks.drop_last();
        lemma_hits_once(d, w);
        if ks.last() == w {
            if d.contains(w) {
                let i = choose|i: int| 0 <= i < d.len() && d[i] == w;
                assert(ks[i] == ks[ks.len() - 1]);
            }
        } else {
            if ks.contains(w) {
                let i = choose|i: int| 0 <= i < ks.len() && ks[i] == w;
                assert(d[i] == w);
            }
            if d.contains(w) {
                let i = choose|i: int| 0 <= i < d.len() && d[i] == w;
                assert(ks[i] == w);
            }
        }
    }
}

proof fn lemma_count_sum_covers(ks: Seq<Seq<char>>, cards: Seq<CardView>)
    requires
        forall|i: int, j: int| 0 <= i < j < ks.len() ==> ks[i] != ks[j],
        forall|j: int| 0 <= j < cards.len() ==> ks.contains(#[trigger] cards[j].keyword),
    ensures
        count_sum(ks, cards) == cards.len(),
    decreases cards.len(),
{
    if cards.len() == 0 {
        lemma_count_sum_empty(ks, cards);
    } else {
        let d = cards.drop_last();
        assert forall|j: int| 0 <= j < d.len() implies ks.contains(#[trigger] d[j].keyword) by {
            assert(d[j] == cards[j]);
        }
        lemma_count_sum_covers(ks, d);
        lemma_count_sum_step(ks, cards);
        lemma_hits_once(ks, cards.last().keyword);
        assert(ks.contains(cards[cards.len() - 1].keyword));
    }
}

proof fn lemma_counts_total_is_count_sum(kc: Seq<(Seq<char>, nat)>, cards: Seq<CardView>)
    requires
        forall|i: int| 0 <= i < kc.len() ==> (#[trigger] kc[i]).1 == keyword_count(cards, kc[i].0),
    ensures
        counts_total(kc) == count_sum(kc.map_values(|p: (Seq<char>, nat)| p.0), cards),
    decreases kc.len(),
{
    if kc.len() > 0 {
        let d = kc.drop_last();
        assert forall|i: int| 0 <= i < d.len() implies (#[trigger] d[i]).1 == keyword_count(cards, d[i].0) by {
            assert(d[i] == kc[i]);
        }
        lemma_counts_total_is_count_sum(d, cards);
        assert(kc.map_values(|p: (Seq<char>, nat)| p.0).drop_last() =~= d.map_values(|p: (Seq<char>, nat)| p.0));
    }
}

/// Every card is counted once: the counts of a keyword tally add up to
/// the number of cards.
pub proof fn lemma_keyword_counts_cover_cards(kc: Seq<(Seq<char>, nat)>, cards: Seq<CardView>)
    requires
        is_keyword_tally(kc, cards),
    ensures
        counts_total(kc) == cards.len(),
{
    let ks = kc.map_values(|p: (Seq<char>, nat)| p.0);
    assert forall|i: int, j: int| 0 <= i < j < ks.len() implies ks[i] != ks[j] by {
        assert(lex_lt(kc[i].0, kc[j].0));
        if ks[i] == ks[j] {
            lemma_lex_irreflexive(ks[i]);
        }
    }
    assert forall|j: int| 0 <= j < cards.len() implies ks.contains(#[trigger] cards[j].keyword) by {
        let i = choose|i: int| 0 <= i < kc.len() && kc[i].0 == #[trigger] cards[j].keyword;
        assert(ks[i] == cards[j].keyword);
    }
    lemma_count_sum_covers(ks, cards);
    lemma_counts_total_is_count_sum(kc, cards);
}


proof fn lemma_tally_run_push(cards: Seq<CardView>, c: CardView, k: int)
    requires
        0 <= k <= cards.len(),
    ensures
        tally_run(cards.push(c), k) == tally_run(cards, k),
    decreases k,
{
    if k > 0 {
        lemma_tally_run_push(cards, c, k - 1);
        assert(cards.push(c)[k - 1] == cards[k - 1]);
    }
}

/// The row counts add up card by card: a deck without cards has no node or
/// element rows, and appending a card raises the element rows by its data
/// lines when its keyword is `ELEMENT` (and the node rows when it is
/// `NODE`), leaving them unchanged otherwise.
pub proof fn lemma_row_counts_append(cards: Seq<CardView>, c: CardView)
    ensures
        deck_tally(Seq::<CardView>::empty()).element_rows == 0,
        deck_tally(Seq::<CardView>::empty()).node_rows == 0,
        deck_tally(cards.push(c)).element_rows == deck_tally(cards).element_rows
            + (if normalized_view(c.keyword) == "ELEMENT"@ { c.data_lines.len() } else { 0 }),
        deck_tally(cards.push(c)).node_rows == deck_tally(cards).node_rows
            + (if normalized_view(c.keyword) == "NODE"@ { c.data_lines.len() } else { 0 }),
{
    reveal_strlit("STEP");
    reveal_strlit("STATIC");
    reveal_strlit("DYNAMIC");
    reveal_strlit("FREQUENCY");
    reveal_strlit("HEATTRANSFER");
    reveal_strlit("MATERIAL");
    reveal_strlit("NODE");
    reveal_strlit("ELEMENT");
    assert("ELEMENT"@.len() == 7 && "NODE"@.len() == 4 && "STEP"@.len() == 4 && "DYNAMIC"@.len() == 7);
    assert("ELEMENT"@[0] != "DYNAMIC"@[0]);
    assert("NODE"@[0] != "STEP"@[0]);
    let all = cards.push(c);
    lemma_tally_run_push(cards, c, cards.len() as int);
    assert(all[cards.len() as int] == c);
    assert(tally_run(all, all.len() as int) == tally_step(tally_run(cards, cards.len() as int), c));
}

} // verus!
