//! Element cards of an input deck read into mesh elements: integer fields,
//! comma-separated data lines, and elements whose node lists continue over
//! several lines.
use vstd::prelude::*;
use crate::deck::{CardView, ParamView};
use crate::inp_basic::{Card, Deck, Parameter};
use crate::mesh::{Element, ElementType, nodes_of, type_of_name, node_count_message};
use crate::text::{chars_of, trim, trim_chars, string_from, owned, push_str, push_signed, signed_decimal,
    to_uppercase, unicode_uppercase, str_eq};

verus! {

broadcast use vstd::string::group_string_axioms;

/// An ASCII decimal digit.
pub open spec fn is_digit(c: char) -> bool {
    '0' <= c && c <= '9'
}

/// The value of a run of decimal digits.
pub open spec fn digits_value(s: Seq<char>) -> int
    decreases s.len(),
{
    if s.len() == 0 {
        0
    } else {
        digits_value(s.drop_last()) * 10 + (s.last() as int - '0' as int)
    }
}

/// `s` without a leading sign.
pub open spec fn unsigned_part(s: Seq<char>) -> Seq<char> {
    if s.len() > 0 && (s[0] == '-' || s[0] == '+') {
        s.drop_first()
    } else {
        s
    }
}

/// Every character of `s` is a decimal digit.
pub open spec fn all_digits(s: Seq<char>) -> bool {
    forall|i: int| 0 <= i < s.len() ==> is_digit(#[trigger] s[i])
}

/// What `str::parse::<i32>` gives: an optional `+` or `-`, then one or
/// more decimal digits, whose value fits in an `i32`.
pub open spec fn parse_i32_view(s: Seq<char>) -> Option<i32> {
    let neg = s.len() > 0 && s[0] == '-';
    let body = unsigned_part(s);
    if body.len() > 0 && all_digits(body) {
        let v = if neg { -digits_value(body) } else { digits_value(body) };
        if i32::MIN <= v && v <= i32::MAX {
            Some(v as i32)
        } else {
            None
        }
    } else {
        None
    }
}

/// A prefix of a run of digits is worth no more than the run.
pub proof fn lemma_digits_grow(s: Seq<char>, k: int)
    requires
        0 <= k <= s.len(),
        forall|i: int| 0 <= i < s.len() ==> is_digit(#[trigger] s[i]),
    ensures
        digits_value(s.take(k)) <= digits_value(s),
        0 <= digits_value(s),
    decreases s.len(),
{
    if s.len() > 0 {
        if k < s.len() {
            lemma_digits_grow(s.drop_last(), k);
            assert(s.drop_last().take(k) =~= s.take(k));
        } else {
            assert(s.take(k) =~= s);
            lemma_digits_grow(s.drop_last(), 0);
        }
    } else {
        assert(s.take(k) =~= s);
    }
}

/// Parses a decimal `i32` (see `parse_i32_view`).
pub fn parse_i32(s: &[char]) -> (r: Option<i32>)
    ensures
        r == parse_i32_view(s@),
{
    let n = s.len();
    let neg = n > 0 && s[0] == '-';
    let start: usize = if n > 0 && (s[0] == '-' || s[0] == '+') { 1 } else { 0 };
    let ghost body = unsigned_part(s@);
    assert(body =~= s@.skip(start as int));
    if start >= n {
        return None;
    }
    let mut acc: i64 = 0;
    let mut i: usize = start;
    while i < n
        invariant
            n == s@.len(),
            start <= i <= n,
            body == s@.skip(start as int),
            body == unsigned_part(s@),
            body.len() > 0,
            neg == (s@.len() > 0 && s@[0] == '-'),
            forall|j: int| 0 <= j < i - start ==> is_digit(#[trigger] body[j]),
            acc == digits_value(body.take(i - start)),
            0 <= acc <= 2147483648,
        decreases n - i,
    {
        let c = s[i];
        if !('0' <= c && c <= '9') {
            assert(body[i - start] == s@[i as int]);
            assert(!is_digit(body[i - start]));
            assert(!all_digits(body));
            return None;
        }
        let d = (c as u32 - '0' as u32) as i64;
        assert(body.take(i - start + 1).drop_last() =~= body.take(i - start));
        acc = acc * 10 + d;
        i += 1;
        if acc > 2147483648 {
            proof {
                let k = i - start;
                if all_digits(body) {
                    lemma_digits_grow(body, k as int);
                }
            }
            return None;
        }
    }
    assert(body.take(n - start) =~= body);
    if neg {
        Some((0 - acc) as i32)
    } else if acc <= 2147483647 {
        Some(acc as i32)
    } else {
        None
    }
}

/// What `str::parse::<usize>` gives: an optional `+`, then one or more
/// decimal digits, whose value fits in a `usize`.
pub open spec fn parse_usize_view(s: Seq<char>) -> Option<usize> {
    let body = if s.len() > 0 && s[0] == '+' { s.drop_first() } else { s };
    if body.len() > 0 && all_digits(body) && digits_value(body) <= usize::MAX {
        Some(digits_value(body) as usize)
    } else {
        None
    }
}

/// Parses a decimal `usize` (see `parse_usize_view`).
#[verifier::spinoff_prover]
pub fn parse_usize(s: &[char]) -> (r: Option<usize>)
    ensures
        r == parse_usize_view(s@),
{
    let n = s.len();
    let start: usize = if n > 0 && s[0] == '+' { 1 } else { 0 };
    let ghost body = if s@.len() > 0 && s@[0] == '+' { s@.drop_first() } else { s@ };
    assert(body =~= s@.skip(start as int));
    if start >= n {
        return None;
    }
    let mut acc: u128 = 0;
    let mut i: usize = start;
    while i < n
        invariant
            n == s@.len(),
            start <= i <= n,
            body == s@.skip(start as int),
            body == (if s@.len() > 0 && s@[0] == '+' { s@.drop_first() } else { s@ }),
            body.len() > 0,
            forall|j: int| 0 <= j < i - start ==> is_digit(#[trigger] body[j]),
            acc == digits_value(body.take(i - start)),
            0 <= acc <= usize::MAX,
        decreases n - i,
    {
        let c = s[i];
        if !('0' <= c && c <= '9') {
            assert(body[i - start] == s@[i as int]);
            assert(!is_digit(body[i - start]));
            assert(!all_digits(body));
            return None;
        }
        let d = (c as u32 - '0' as u32) as u128;
        assert(body.take(i - start + 1).drop_last() =~= body.take(i - start));
        acc = acc * 10 + d;
        i += 1;
        if acc > usize::MAX as u128 {
            proof {
                let k = i - start;
                if all_digits(body) {
                    lemma_digits_grow(body, k as int);
                }
            }
            return None;
        }
    }
    assert(body.take(n - start) =~= body);
    Some(acc as usize)
}

/// The fields of `s` between commas (`str::split(',')`).
pub open spec fn split_commas(s: Seq<char>) -> Seq<Seq<char>>
    decreases s.len(),
{
    if s.len() == 0 {
        seq![seq![]]
    } else {
        let rest = split_commas(s.drop_last());
        if s.last() == ',' {
            rest.push(seq![])
        } else {
            rest.update(rest.len() - 1, rest.last().push(s.last()))
        }
    }
}

proof fn lemma_split_nonempty(s: Seq<char>)
    ensures
        split_commas(s).len() >= 1,
    decreases s.len(),
{
    if s.len() > 0 {
        lemma_split_nonempty(s.drop_last());
    }
}

/// The comma-separated fields of `s`.
pub fn split_fields(s: &[char]) -> (r: Vec<Vec<char>>)
    ensures
        r@.map_values(|f: Vec<char>| f@) == split_commas(s@),
        r@.len() >= 1,
{
    let mut done: Vec<Vec<char>> = Vec::new();
    let mut cur: Vec<char> = Vec::new();
    let mut i: usize = 0;
    assert(s@.subrange(0, 0) =~= Seq::<char>::empty());
    while i < s.len()
        invariant
            i <= s@.len(),
            done@.map_values(|f: Vec<char>| f@).push(cur@) == split_commas(s@.subrange(0, i as int)),
        decreases s.len() - i,
    {
        let c = s[i];
        let ghost pre = s@.subrange(0, i as int);
        proof {
            lemma_split_nonempty(pre);
            assert(s@.subrange(0, i + 1).drop_last() =~= pre);
        }
        if c == ',' {
            let mut fresh: Vec<char> = Vec::new();
            std::mem::swap(&mut fresh, &mut cur);
            let ghost dv = done@.map_values(|f: Vec<char>| f@);
            done.push(fresh);
            assert(done@.map_values(|f: Vec<char>| f@) =~= dv.push(fresh@));
        } else {
            let ghost dv = done@.map_values(|f: Vec<char>| f@);
            let ghost before = dv.push(cur@);
            cur.push(c);
            assert(dv.push(cur@) =~= before.update(before.len() - 1, before.last().push(c)));
        }
        i += 1;
    }
    assert(s@.subrange(0, s@.len() as int) =~= s@);
    let ghost dv = done@.map_values(|f: Vec<char>| f@);
    done.push(cur);
    assert(done@.map_values(|f: Vec<char>| f@) =~= dv.push(cur@));
    done
}

/// Message for a node field that is no integer.
pub open spec fn invalid_node_message(id: i32, field: Seq<char>) -> Seq<char> {
    "Invalid node ID in element "@ + signed_decimal(id as int) + ": "@ + field
}

/// Message for an element id that is no integer.
pub open spec fn invalid_element_message(field: Seq<char>) -> Seq<char> {
    "Invalid element ID: "@ + field
}

/// Reading an element card: the element begun and its nodes so far, the
/// elements finished, and the errors met.
pub struct CardReadView {
    pub current: Option<i32>,
    pub acc: Seq<i32>,
    pub elements: Seq<(i32, Seq<i32>)>,
    pub errors: Seq<Seq<char>>,
}

/// Reads node ids from the fields `parts` for element `id`: empty fields
/// are skipped, the others are parsed or reported.
pub open spec fn collect_nodes(parts: Seq<Seq<char>>, id: i32, acc: Seq<i32>, errors: Seq<Seq<char>>) -> (Seq<i32>, Seq<Seq<char>>)
    decreases parts.len(),
{
    if parts.len() == 0 {
        (acc, errors)
    } else {
        let (a, e) = collect_nodes(parts.drop_last(), id, acc, errors);
        let t = trim(parts.last());
        if t.len() == 0 {
            (a, e)
        } else {
            match parse_i32_view(t) {
                Some(v) => (a.push(v), e),
                None => (a, e.push(invalid_node_message(id, t))),
            }
        }
    }
}

/// Ends element `id` with nodes `acc`: kept when it has as many nodes as
/// its type asks for, reported otherwise.
pub open spec fn finish(elements: Seq<(i32, Seq<i32>)>, errors: Seq<Seq<char>>, id: i32, acc: Seq<i32>, t: ElementType) -> (Seq<(i32, Seq<i32>)>, Seq<Seq<char>>) {
    if acc.len() == nodes_of(t) {
        (elements.push((id, acc)), errors)
    } else {
        (elements, errors.push(node_count_message(id, t, acc.len())))
    }
}

/// Reading after one more data line. A line continues the element begun
/// when that element has some but not all of its nodes; otherwise its
/// first field starts a new element (ending the one begun).
pub open spec fn line_step(st: CardReadView, line: Seq<char>, t: ElementType) -> CardReadView {
    let parts = split_commas(line);
    let expected = nodes_of(t);
    if st.current is Some && st.acc.len() < expected && st.acc.len() > 0 {
        let id = st.current->0;
        let (acc, errors) = collect_nodes(parts, id, st.acc, st.errors);
        if acc.len() >= expected {
            let (els, errs) = finish(st.elements, errors, id, acc, t);
            CardReadView { current: None, acc: seq![], elements: els, errors: errs }
        } else {
            CardReadView { current: st.current, acc, elements: st.elements, errors }
        }
    } else {
        let first = trim(parts[0]);
        match parse_i32_view(first) {
            Some(id) => {
                let (els0, errs0, acc0) = match st.current {
                    Some(prev) => {
                        let (e, r) = finish(st.elements, st.errors, prev, st.acc, t);
                        (e, r, Seq::<i32>::empty())
                    },
                    None => (st.elements, st.errors, st.acc),
                };
                let (acc, errors) = collect_nodes(parts.drop_first(), id, acc0, errs0);
                if acc.len() >= expected {
                    let (els, errs) = finish(els0, errors, id, acc, t);
                    CardReadView { current: None, acc: seq![], elements: els, errors: errs }
                } else {
                    CardReadView { current: Some(id), acc, elements: els0, errors }
                }
            },
            None => CardReadView { errors: st.errors.push(invalid_element_message(first)), ..st },
        }
    }
}

/// Reading after the first `n` data lines.
pub open spec fn card_run(lines: Seq<Seq<char>>, n: int, t: ElementType) -> CardReadView
    decreases n,
{
    if n <= 0 {
        CardReadView { current: None, acc: seq![], elements: seq![], errors: seq![] }
    } else {
        line_step(card_run(lines, n - 1, t), lines[n - 1], t)
    }
}

/// The elements and errors of the data lines of an element card of type
/// `t`; the element begun last is ended after the last line.
pub open spec fn element_lines_result(lines: Seq<Seq<char>>, t: ElementType) -> (Seq<(i32, Seq<i32>)>, Seq<Seq<char>>) {
    let st = card_run(lines, lines.len() as int, t);
    match st.current {
        Some(id) => finish(st.elements, st.errors, id, st.acc, t),
        None => (st.elements, st.errors),
    }
}

/// Id and nodes of each element.
pub open spec fn elements_view(v: Seq<Element>) -> Seq<(i32, Seq<i32>)> {
    v.map_values(|e: Element| (e.id, e.nodes@))
}

/// Views of strings.
pub open spec fn strings_view(v: Seq<String>) -> Seq<Seq<char>> {
    v.map_values(|s: String| s@)
}

/// Views of fields.
pub open spec fn fields_view(v: Seq<Vec<char>>) -> Seq<Seq<char>> {
    v.map_values(|f: Vec<char>| f@)
}

fn collect_exec(parts: &Vec<Vec<char>>, from: usize, id: i32, acc: &mut Vec<i32>, errors: &mut Vec<String>)
    requires
        from <= parts@.len(),
    ensures
        (final(acc)@, strings_view(final(errors)@))
            == collect_nodes(fields_view(parts@).skip(from as int), id, old(acc)@, strings_view(old(errors)@)),
{
    let ghost pv = fields_view(parts@);
    let ghost a0 = acc@;
    let ghost e0 = strings_view(errors@);
    let mut k: usize = from;
    assert(pv.subrange(from as int, from as int) =~= Seq::<Seq<char>>::empty());
    while k < parts.len()
        invariant
            pv == fields_view(parts@),
            from <= k <= parts@.len(),
            (acc@, strings_view(errors@)) == collect_nodes(pv.subrange(from as int, k as int), id, a0, e0),
        decreases parts.len() - k,
    {
        assert(pv.subrange(from as int, k + 1).drop_last() =~= pv.subrange(from as int, k as int));
        assert(pv.subrange(from as int, k + 1).last() == parts@[k as int]@);
        let t = trim_chars(parts[k].as_slice());
        if t.len() > 0 {
            match parse_i32(t.as_slice()) {
                Some(v) => {
                    acc.push(v);
                },
                None => {
                    let mut m = owned("Invalid node ID in element ");
                    push_signed(&mut m, id);
                    push_str(&mut m, ": ");
                    let ts = string_from(t.as_slice());
                    push_str(&mut m, ts.as_str());
                    let ghost ev = strings_view(errors@);
                    errors.push(m);
                    assert(strings_view(errors@) =~= ev.push(m@));
                },
            }
        }
        k += 1;
    }
    assert(pv.subrange(from as int, parts@.len() as int) =~= pv.skip(from as int));
}

fn finish_exec(elements: &mut Vec<Element>, errors: &mut Vec<String>, id: i32, acc: Vec<i32>, t: ElementType)
    ensures
        (elements_view(final(elements)@), strings_view(final(errors)@))
            == finish(elements_view(old(elements)@), strings_view(old(errors)@), id, acc@, t),
        forall|i: int| 0 <= i < old(elements)@.len() ==> final(elements)@[i] == old(elements)@[i],
        forall|i: int| old(elements)@.len() <= i < final(elements)@.len() ==> (#[trigger] final(elements)@[i]).element_type == t,
{
    let n = acc.len();
    if n == t.num_nodes() {
        let e = Element::new(id, t, acc);
        let ghost ev = elements_view(elements@);
        elements.push(e);
        assert(elements_view(elements@) =~= ev.push((id, e.nodes@)));
    } else {
        let mut m = owned("Element ");
        push_signed(&mut m, id);
        push_str(&mut m, " of type ");
        push_str(&mut m, t.name());
        push_str(&mut m, " has ");
        crate::text::push_decimal(&mut m, n);
        push_str(&mut m, " nodes but expected ");
        crate::text::push_decimal(&mut m, t.num_nodes());
        let ghost sv = strings_view(errors@);
        errors.push(m);
        assert(strings_view(errors@) =~= sv.push(m@));
    }
}

/// Elements of type `t`.
pub open spec fn all_of_type(v: Seq<Element>, t: ElementType) -> bool {
    forall|i: int| 0 <= i < v.len() ==> (#[trigger] v[i]).element_type == t
}

/// Reads the data lines of an element card of type `t` (see
/// `element_lines_result`).
pub fn process_element_lines(lines: &Vec<String>, t: ElementType) -> (r: (Vec<Element>, Vec<String>))
    ensures
        (elements_view(r.0@), strings_view(r.1@)) == element_lines_result(strings_view(lines@), t),
        all_of_type(r.0@, t),
{
    let ghost lv = strings_view(lines@);
    let expected = t.num_nodes();
    let mut current: Option<i32> = None;
    let mut acc: Vec<i32> = Vec::new();
    let mut elements: Vec<Element> = Vec::new();
    let mut errors: Vec<String> = Vec::new();
    let mut i: usize = 0;
    assert(elements_view(elements@) =~= Seq::<(i32, Seq<i32>)>::empty());
    assert(strings_view(errors@) =~= Seq::<Seq<char>>::empty());
    while i < lines.len()
        invariant
            lv == strings_view(lines@),
            expected == nodes_of(t),
            i <= lines@.len(),
            card_run(lv, i as int, t) == (CardReadView {
                current,
                acc: acc@,
                elements: elements_view(elements@),
                errors: strings_view(errors@),
            }),
            all_of_type(elements@, t),
        decreases lines.len() - i,
    {
        let chars = chars_of(lines[i].as_str());
        let parts = split_fields(chars.as_slice());
        let ghost line = lv[i as int];
        assert(line == chars@);
        if current.is_some() && acc.len() < expected && acc.len() > 0 {
            let id = current.unwrap();
            collect_exec(&parts, 0, id, &mut acc, &mut errors);
            assert(fields_view(parts@).skip(0) =~= fields_view(parts@));
            if acc.len() >= expected {
                let mut a: Vec<i32> = Vec::new();
                std::mem::swap(&mut a, &mut acc);
                finish_exec(&mut elements, &mut errors, id, a, t);
                current = None;
            }
        } else {
            let first = trim_chars(parts[0].as_slice());
            match parse_i32(first.as_slice()) {
                Some(id) => {
                    match current {
                        Some(prev) => {
                            let mut a: Vec<i32> = Vec::new();
                            std::mem::swap(&mut a, &mut acc);
                            finish_exec(&mut elements, &mut errors, prev, a, t);
                        },
                        None => {},
                    }
                    collect_exec(&parts, 1, id, &mut acc, &mut errors);
                    assert(fields_view(parts@).skip(1) =~= fields_view(parts@).drop_first());
                    if acc.len() >= expected {
                        let mut a: Vec<i32> = Vec::new();
                        std::mem::swap(&mut a, &mut acc);
                        finish_exec(&mut elements, &mut errors, id, a, t);
                        current = None;
                    } else {
                        current = Some(id);
                    }
                },
                None => {
                    let mut m = owned("Invalid element ID: ");
                    let fs = string_from(first.as_slice());
                    push_str(&mut m, fs.as_str());
                    let ghost sv = strings_view(errors@);
                    errors.push(m);
                    assert(strings_view(errors@) =~= sv.push(m@));
                },
            }
        }
        i += 1;
    }
    match current {
        Some(id) => {
            finish_exec(&mut elements, &mut errors, id, acc, t);
        },
        None => {},
    }
    (elements, errors)
}

/// The first parameter whose upper-cased key is `TYPE`.
pub open spec fn first_type_param(ps: Seq<ParamView>) -> Option<ParamView>
    decreases ps.len(),
{
    if ps.len() == 0 {
        None
    } else if unicode_uppercase(ps[0].key) == "TYPE"@ {
        Some(ps[0])
    } else {
        first_type_param(ps.drop_first())
    }
}

/// What reading an element card gives: its element type with the elements
/// and errors of its data lines, or the message of a card that names no
/// known type.
pub open spec fn element_card_outcome(c: CardView) -> Result<(ElementType, (Seq<(i32, Seq<i32>)>, Seq<Seq<char>>)), Seq<char>> {
    match first_type_param(c.parameters) {
        None => Err("ELEMENT card missing TYPE parameter"@),
        Some(p) => match p.value {
            None => Err("ELEMENT TYPE parameter has no value"@),
            Some(v) => match type_of_name(unicode_uppercase(v)) {
                None => Err("Unknown element type: "@ + v),
                Some(t) => Ok((t, element_lines_result(c.data_lines, t))),
            },
        },
    }
}

/// Reads an `*ELEMENT` card (see `element_card_outcome`).
pub fn process_element_card(card: &Card) -> (r: Result<(Vec<Element>, Vec<String>), String>)
    ensures
        match r {
            Ok((els, errs)) => element_card_outcome(card@) matches Ok((t, res))
                && res == (elements_view(els@), strings_view(errs@)) && all_of_type(els@, t),
            Err(m) => element_card_outcome(card@) == Err::<(ElementType, (Seq<(i32, Seq<i32>)>, Seq<Seq<char>>)), Seq<char>>(m@),
        },
{
    let ps = &card.parameters;
    let ghost pv = card@.parameters;
    assert(pv.skip(0) =~= pv);
    let mut i: usize = 0;
    let mut found: Option<usize> = None;
    while i < ps.len() && found.is_none()
        invariant
            pv == ps@.map_values(|p: Parameter| p@),
            i <= ps@.len(),
            found is None ==> first_type_param(pv) == first_type_param(pv.skip(i as int)),
            found matches Some(k) ==> k < ps@.len() && first_type_param(pv) == Some(pv[k as int]),
        decreases ps.len() - i + (if found is None { 1int } else { 0int }),
    {
        let key = to_uppercase(ps[i].key.as_str());
        assert(pv.skip(i as int)[0] == pv[i as int]);
        if str_eq(key.as_str(), "TYPE") {
            found = Some(i);
        } else {
            assert(pv.skip(i as int).drop_first() =~= pv.skip(i + 1));
            i += 1;
        }
    }
    let k = match found {
        Some(k) => k,
        None => {
            assert(pv.skip(i as int) =~= Seq::<ParamView>::empty());
            return Err(owned("ELEMENT card missing TYPE parameter"));
        },
    };
    let value = match &ps[k].value {
        Some(v) => v,
        None => {
            return Err(owned("ELEMENT TYPE parameter has no value"));
        },
    };
    let t = match ElementType::from_calculix_type(value.as_str()) {
        Some(t) => t,
        None => {
            let mut m = owned("Unknown element type: ");
            push_str(&mut m, value.as_str());
            return Err(m);
        },
    };
    let (els, errs) = process_element_lines(&card.data_lines, t);
    assert(strings_view(card.data_lines@) == card@.data_lines);
    Ok((els, errs))
}

/// The fields of a node data line: its id, and its coordinates as written.
#[derive(Debug, Clone, PartialEq, Eq)]
pub struct NodeFields {
    pub id: i32,
    pub x: String,
    pub y: String,
    pub z: String,
}

/// What a `*NODE` data line gives: an integer id and three coordinate
/// fields (trimmed), or the message of a line that has too few fields or
/// no integer id.
pub open spec fn node_line(line: Seq<char>) -> Result<(i32, Seq<char>, Seq<char>, Seq<char>), Seq<char>> {
    let parts = split_commas(line);
    if parts.len() < 4 {
        Err("Invalid node data line (expected at least 4 fields): "@ + line)
    } else {
        match parse_i32_view(trim(parts[0])) {
            None => Err("Invalid node ID: "@ + trim(parts[0])),
            Some(id) => Ok((id, trim(parts[1]), trim(parts[2]), trim(parts[3]))),
        }
    }
}

/// Reads a `*NODE` data line (see `node_line`).
pub fn node_line_fields(line: &str) -> (r: Result<NodeFields, String>)
    ensures
        match r {
            Ok(f) => node_line(line@) == Ok::<(i32, Seq<char>, Seq<char>, Seq<char>), Seq<char>>((f.id, f.x@, f.y@, f.z@)),
            Err(m) => node_line(line@) == Err::<(i32, Seq<char>, Seq<char>, Seq<char>), Seq<char>>(m@),
        },
{
    let chars = chars_of(line);
    let parts = split_fields(chars.as_slice());
    let ghost pv = fields_view(parts@);
    if parts.len() < 4 {
        let mut m = owned("Invalid node data line (expected at least 4 fields): ");
        push_str(&mut m, line);
        return Err(m);
    }
    assert(pv[0] == parts@[0]@ && pv[1] == parts@[1]@ && pv[2] == parts@[2]@ && pv[3] == parts@[3]@);
    let f0 = trim_chars(parts[0].as_slice());
    let id = match parse_i32(f0.as_slice()) {
        Some(id) => id,
        None => {
            let mut m = owned("Invalid node ID: ");
            let fs = string_from(f0.as_slice());
            push_str(&mut m, fs.as_str());
            return Err(m);
        },
    };
    let x = string_from(trim_chars(parts[1].as_slice()).as_slice());
    let y = string_from(trim_chars(parts[2].as_slice()).as_slice());
    let z = string_from(trim_chars(parts[3].as_slice()).as_slice());
    Ok(NodeFields { id, x, y, z })
}

/// A data line that is one whole element of type `t`: its id and then
/// exactly as many node ids as the type has nodes, every field an integer.
pub open spec fn single_line_element(line: Seq<char>, t: ElementType) -> bool {
    let parts = split_commas(line);
    &&& parts.len() == nodes_of(t) + 1
    &&& forall|i: int| 0 <= i < parts.len() ==> parse_i32_view(trim(#[trigger] parts[i])) is Some
}

/// The element such a line gives: its first field as id, the others as
/// nodes.
pub open spec fn element_of_line(line: Seq<char>) -> (i32, Seq<i32>) {
    let parts = split_commas(line);
    (
        parse_i32_view(trim(parts[0]))->0,
        parts.drop_first().map_values(|f: Seq<char>| parse_i32_view(trim(f))->0),
    )
}

proof fn lemma_collect_all(parts: Seq<Seq<char>>, id: i32, acc: Seq<i32>, errors: Seq<Seq<char>>)
    requires
        forall|i: int| 0 <= i < parts.len() ==> parse_i32_view(trim(#[trigger] parts[i])) is Some,
    ensures
        collect_nodes(parts, id, acc, errors)
            == (acc + parts.map_values(|f: Seq<char>| parse_i32_view(trim(f))->0), errors),
    decreases parts.len(),
{
    let m = parts.map_values(|f: Seq<char>| parse_i32_view(trim(f))->0);
    if parts.len() == 0 {
        assert(acc + m =~= acc);
    } else {
        let init = parts.drop_last();
        assert forall|i: int| 0 <= i < init.len() implies parse_i32_view(trim(#[trigger] init[i])) is Some by {
            assert(init[i] == parts[i]);
        }
        lemma_collect_all(init, id, acc, errors);
        let last = trim(parts.last());
        assert(parse_i32_view(trim(parts[parts.len() - 1])) is Some);
        assert(last.len() > 0);
        assert(acc + init.map_values(|f: Seq<char>| parse_i32_view(trim(f))->0)
            + seq![parse_i32_view(last)->0] =~= acc + m);
    }
}

/// A card whose every data line is one whole element gives those elements,
/// in order, and no error.
pub proof fn lemma_single_line_elements(lines: Seq<Seq<char>>, t: ElementType)
    requires
        forall|i: int| 0 <= i < lines.len() ==> single_line_element(#[trigger] lines[i], t),
    ensures
        element_lines_result(lines, t) == (lines.map_values(|l: Seq<char>| element_of_line(l)), Seq::<Seq<char>>::empty()),
{
    lemma_single_line_run(lines, t, lines.len() as int);
    assert(lines.take(lines.len() as int) =~= lines);
}

proof fn lemma_single_line_run(lines: Seq<Seq<char>>, t: ElementType, n: int)
    requires
        0 <= n <= lines.len(),
        forall|i: int| 0 <= i < lines.len() ==> single_line_element(#[trigger] lines[i], t),
    ensures
        card_run(lines, n, t) == (CardReadView {
            current: None,
            acc: seq![],
            elements: lines.take(n).map_values(|l: Seq<char>| element_of_line(l)),
            errors: seq![],
        }),
    decreases n,
{
    if n == 0 {
        assert(lines.take(0).map_values(|l: Seq<char>| element_of_line(l)) =~= Seq::<(i32, Seq<i32>)>::empty());
    } else {
        lemma_single_line_run(lines, t, n - 1);
        let st = card_run(lines, n - 1, t);
        let line = lines[n - 1];
        assert(single_line_element(line, t));
        let parts = split_commas(line);
        assert(parse_i32_view(trim(parts[0])) is Some);
        let id = parse_i32_view(trim(parts[0]))->0;
        let rest = parts.drop_first();
        assert forall|i: int| 0 <= i < rest.len() implies parse_i32_view(trim(#[trigger] rest[i])) is Some by {
            assert(rest[i] == parts[i + 1]);
        }
        lemma_collect_all(rest, id, Seq::<i32>::empty(), Seq::<Seq<char>>::empty());
        let nodes = rest.map_values(|f: Seq<char>| parse_i32_view(trim(f))->0);
        assert(Seq::<i32>::empty() + nodes =~= nodes);
        assert(element_of_line(line) == (id, nodes));
        assert(lines.take(n).map_values(|l: Seq<char>| element_of_line(l))
            =~= lines.take(n - 1).map_values(|l: Seq<char>| element_of_line(l)).push((id, nodes)));
    }
}

/// What reading the mesh cards of a deck gives, card by card.
pub enum MeshEvent {
    /// A `*NODE` data line: its fields, or why it cannot be read.
    Node(Result<NodeFields, String>),
    /// An `*ELEMENT` card: its elements and the errors of its lines.
    Elements(Vec<Element>, Vec<String>),
}

/// Model of a mesh event.
pub enum MeshEventView {
    Node(Result<(i32, Seq<char>, Seq<char>, Seq<char>), Seq<char>>),
    Elements(Seq<(i32, ElementType, Seq<i32>)>, Seq<Seq<char>>),
}

/// Id, type and nodes of each element.
pub open spec fn typed_elements_view(v: Seq<Element>) -> Seq<(i32, ElementType, Seq<i32>)> {
    v.map_values(|e: Element| (e.id, e.element_type, e.nodes@))
}

/// Elements given by id and nodes, all of type `t`.
pub open spec fn with_type(ps: Seq<(i32, Seq<i32>)>, t: ElementType) -> Seq<(i32, ElementType, Seq<i32>)> {
    ps.map_values(|p: (i32, Seq<i32>)| (p.0, t, p.1))
}

impl View for MeshEvent {
    type V = MeshEventView;

    open spec fn view(&self) -> MeshEventView {
        match self {
            MeshEvent::Node(Ok(f)) => MeshEventView::Node(Ok((f.id, f.x@, f.y@, f.z@))),
            MeshEvent::Node(Err(m)) => MeshEventView::Node(Err(m@)),
            MeshEvent::Elements(es, errs) => MeshEventView::Elements(typed_elements_view(es@), strings_view(errs@)),
        }
    }
}

/// What one card gives: one event per data line of a `NODE` card, one for
/// an `ELEMENT` card (its elements, all of the card's type, and the errors
/// of its lines), none for other cards (keywords compared upper-cased);
/// an element card that names no known type stops the reading.
pub open spec fn card_events(c: CardView) -> Result<Seq<MeshEventView>, Seq<char>> {
    let k = unicode_uppercase(c.keyword);
    if k == "NODE"@ {
        Ok(c.data_lines.map_values(|l: Seq<char>| MeshEventView::Node(node_line(l))))
    } else if k == "ELEMENT"@ {
        match element_card_outcome(c) {
            Ok((t, res)) => Ok(seq![MeshEventView::Elements(with_type(res.0, t), res.1)]),
            Err(m) => Err(m),
        }
    } else {
        Ok(Seq::empty())
    }
}

/// `pre` before what `r` gives, or the error of `r`.
pub open spec fn after_events(pre: Seq<MeshEventView>, r: Result<Seq<MeshEventView>, Seq<char>>) -> Result<Seq<MeshEventView>, Seq<char>> {
    match r {
        Ok(x) => Ok(pre + x),
        Err(m) => Err(m),
    }
}

/// The events of the cards, in deck order, or the first card error.
pub open spec fn deck_events(cards: Seq<CardView>) -> Result<Seq<MeshEventView>, Seq<char>>
    decreases cards.len(),
{
    if cards.len() == 0 {
        Ok(Seq::empty())
    } else {
        match card_events(cards[0]) {
            Err(m) => Err(m),
            Ok(e) => after_events(e, deck_events(cards.drop_first())),
        }
    }
}

/// Models of events.
pub open spec fn events_view(v: Seq<MeshEvent>) -> Seq<MeshEventView> {
    v.map_values(|e: MeshEvent| e@)
}

/// Reads the node and element cards of a deck (see `deck_events`).
pub fn mesh_events(deck: &Deck) -> (r: Result<Vec<MeshEvent>, String>)
    ensures
        match r {
            Ok(v) => deck_events(deck@) == Ok::<Seq<MeshEventView>, Seq<char>>(events_view(v@)),
            Err(m) => deck_events(deck@) == Err::<Seq<MeshEventView>, Seq<char>>(m@),
        },
{
    let ghost dv = deck@;
    let mut out: Vec<MeshEvent> = Vec::new();
    let mut i: usize = 0;
    assert(dv.skip(0) =~= dv);
    assert(Seq::<MeshEventView>::empty() + Seq::<MeshEventView>::empty() =~= Seq::<MeshEventView>::empty());
    proof {
        match deck_events(dv) {
            Ok(x) => {
                assert(events_view(out@) + x =~= x);
            },
            Err(_) => {},
        }
    }
    while i < deck.cards.len()
        invariant
            dv == deck@,
            dv.len() == deck.cards@.len(),
            i <= dv.len(),
            deck_events(dv) == after_events(events_view(out@), deck_events(dv.skip(i as int))),
        decreases deck.cards.len() - i,
    {
        let card = &deck.cards[i];
        let ghost rest = dv.skip(i as int);
        assert(rest[0] == card@);
        assert(rest.drop_first() =~= dv.skip(i + 1));
        let ghost before = events_view(out@);
        let k = to_uppercase(card.keyword.as_str());
        if str_eq(k.as_str(), "NODE") {
            let ghost lv = card@.data_lines;
            let mut j: usize = 0;
            while j < card.data_lines.len()
                invariant
                    lv == card@.data_lines,
                    lv == strings_view(card.data_lines@),
                    j <= lv.len(),
                    events_view(out@) == before + lv.take(j as int).map_values(|l: Seq<char>| MeshEventView::Node(node_line(l))),
                decreases card.data_lines.len() - j,
            {
                let f = node_line_fields(card.data_lines[j].as_str());
                let e = MeshEvent::Node(f);
                let ghost ov = events_view(out@);
                out.push(e);
                assert(events_view(out@) =~= ov.push(e@));
                assert(lv.take(j + 1).map_values(|l: Seq<char>| MeshEventView::Node(node_line(l)))
                    =~= lv.take(j as int).map_values(|l: Seq<char>| MeshEventView::Node(node_line(l))).push(MeshEventView::Node(node_line(lv[j as int]))));
                j += 1;
            }
            proof {
                assert(lv.take(lv.len() as int) =~= lv);
                let e = lv.map_values(|l: Seq<char>| MeshEventView::Node(node_line(l)));
                match deck_events(dv.skip(i + 1)) {
                    Ok(x) => {
                        assert(before + (e + x) =~= (before + e) + x);
                    },
                    Err(_) => {},
                }
            }
        } else if str_eq(k.as_str(), "ELEMENT") {
            match process_element_card(card) {
                Ok((els, errs)) => {
                    proof {
                        let (t, res) = element_card_outcome(card@)->Ok_0;
                        assert(typed_elements_view(els@) =~= with_type(res.0, t)) by {
                            assert forall|j: int| 0 <= j < els@.len() implies typed_elements_view(els@)[j] == with_type(res.0, t)[j] by {
                                assert(elements_view(els@)[j] == res.0[j]);
                                assert(els@[j].element_type == t);
                            }
                        }
                    }
                    let e = MeshEvent::Elements(els, errs);
                    let ghost ev = e@;
                    out.push(e);
                    proof {
                        assert(events_view(out@) =~= before.push(ev));
                        match deck_events(dv.skip(i + 1)) {
                            Ok(x) => {
                                assert(before + (seq![ev] + x) =~= before.push(ev) + x);
                            },
                            Err(_) => {},
                        }
                    }
                },
                Err(m) => {
                    return Err(m);
                },
            }
        } else {
            proof {
                match deck_events(dv.skip(i + 1)) {
                    Ok(x) => {
                        assert(Seq::<MeshEventView>::empty() + x =~= x);
                    },
                    Err(_) => {},
                }
            }
        }
        i += 1;
    }
    proof {
        assert(dv.skip(i as int) =~= Seq::<CardView>::empty());
        assert(events_view(out@) + Seq::<MeshEventView>::empty() =~= events_view(out@));
    }
    Ok(out)
}

} // verus!
