//! Reading the records of an FRD result file from its lines. The format
//! places fields at fixed byte offsets, so lines are measured in the bytes
//! of their UTF-8 encoding.
use vstd::prelude::*;
use crate::text::{is_ws, trim, trim_chars, string_from, chars_of, lemma_trim_first_not_ws};
use crate::mesh_builder::{parse_i32, parse_i32_view, strings_view};
use crate::catalog::chars_are;
use crate::results::{FrdElement, FrdHeader};

verus! {

broadcast use vstd::string::group_string_axioms;

/// Bytes of the UTF-8 encoding of `c` (`char::len_utf8`).
pub open spec fn char_len_utf8(c: char) -> int {
    let u = c as u32;
    if u < 0x80 {
        1
    } else if u < 0x800 {
        2
    } else if u < 0x10000 {
        3
    } else {
        4
    }
}

/// Bytes of the UTF-8 encoding of `s`.
pub open spec fn utf8_len(s: Seq<char>) -> int
    decreases s.len(),
{
    if s.len() == 0 {
        0
    } else {
        char_len_utf8(s[0]) + utf8_len(s.drop_first())
    }
}

/// The index of the character at which byte `b` of the encoding of `s`
/// starts (`s.len()` for the end), or none when byte `b` falls inside a
/// character or beyond the end.
pub open spec fn byte_index(s: Seq<char>, b: int) -> Option<int>
    decreases s.len(),
{
    if b == 0 {
        Some(0)
    } else if s.len() == 0 || b < 0 {
        None
    } else {
        match byte_index(s.drop_first(), b - char_len_utf8(s[0])) {
            Some(i) => Some(i + 1),
            None => None,
        }
    }
}

/// The characters of bytes `a..b` of the encoding of `s`, when both ends
/// fall between characters.
pub open spec fn byte_slice(s: Seq<char>, a: int, b: int) -> Option<Seq<char>> {
    match (byte_index(s, a), byte_index(s, b)) {
        (Some(i), Some(j)) => if i <= j {
            Some(s.subrange(i, j))
        } else {
            None
        },
        _ => None,
    }
}

proof fn lemma_byte_index_bounds(s: Seq<char>, b: int)
    ensures
        byte_index(s, b) matches Some(i) ==> 0 <= i <= s.len(),
    decreases s.len(),
{
    if b != 0 && s.len() > 0 && b >= 0 {
        lemma_byte_index_bounds(s.drop_first(), b - char_len_utf8(s[0]));
    }
}

proof fn lemma_byte_index_monotone(s: Seq<char>, a: int, b: int)
    requires
        a <= b,
        byte_index(s, a) is Some,
        byte_index(s, b) is Some,
    ensures
        byte_index(s, a)->0 <= byte_index(s, b)->0,
        0 <= byte_index(s, a)->0,
        byte_index(s, b)->0 <= s.len(),
    decreases s.len(),
{
    lemma_byte_index_bounds(s, a);
    lemma_byte_index_bounds(s, b);
    if a != 0 && s.len() > 0 {
        lemma_byte_index_monotone(s.drop_first(), a - char_len_utf8(s[0]), b - char_len_utf8(s[0]));
    }
}

proof fn lemma_utf8_len_nonneg(s: Seq<char>)
    ensures
        utf8_len(s) >= s.len(),
        utf8_len(s) <= 4 * s.len(),
    decreases s.len(),
{
    if s.len() > 0 {
        lemma_utf8_len_nonneg(s.drop_first());
    }
}

/// Bytes of the UTF-8 encoding of one character.
pub fn char_utf8_len(c: char) -> (r: usize)
    ensures
        r == char_len_utf8(c),
{
    let u = c as u32;
    if u < 0x80 {
        1
    } else if u < 0x800 {
        2
    } else if u < 0x10000 {
        3
    } else {
        4
    }
}

/// Whether the UTF-8 encoding of `s` has at least `n` bytes.
pub fn utf8_len_at_least(s: &[char], n: usize) -> (r: bool)
    requires
        n <= usize::MAX - 4,
    ensures
        r == (utf8_len(s@) >= n),
{
    let mut acc: usize = 0;
    let mut i: usize = 0;
    assert(s@.skip(0) =~= s@);
    while i < s.len()
        invariant
            i <= s@.len(),
            n <= usize::MAX - 4,
            acc < n || (i == 0 && n == 0),
            utf8_len(s@) == acc + utf8_len(s@.skip(i as int)),
        decreases s.len() - i,
    {
        if acc >= n {
            proof {
                lemma_utf8_len_nonneg(s@.skip(i as int));
            }
            return true;
        }
        assert(s@.skip(i as int).drop_first() =~= s@.skip(i + 1));
        acc = acc + char_utf8_len(s[i]);
        i += 1;
        if acc >= n {
            proof {
                lemma_utf8_len_nonneg(s@.skip(i as int));
            }
            return true;
        }
    }
    assert(s@.skip(i as int) =~= Seq::<char>::empty());
    acc >= n
}

/// Bytes of the UTF-8 encoding of `s` (`str::len`).
pub fn utf8_length(s: &[char]) -> (r: u128)
    ensures
        r == utf8_len(s@),
{
    let mut acc: u128 = 0;
    let mut i: usize = s.len();
    assert(s@.skip(s@.len() as int) =~= Seq::<char>::empty());
    while i > 0
        invariant
            i <= s@.len(),
            acc == utf8_len(s@.skip(i as int)),
            acc <= 4 * (s@.len() - i),
        decreases i,
    {
        i -= 1;
        assert(s@.skip(i as int).drop_first() =~= s@.skip(i + 1));
        acc = acc + char_utf8_len(s[i]) as u128;
    }
    assert(s@.skip(0) =~= s@);
    acc
}

/// The character index at which byte `b` starts (see `byte_index`).
pub fn index_of_byte(s: &[char], b: u128) -> (r: Option<usize>)
    ensures
        match r {
            Some(k) => byte_index(s@, b as int) == Some(k as int),
            None => byte_index(s@, b as int) is None,
        },
{
    let mut i: usize = 0;
    let mut acc: u128 = 0;
    assert(s@.skip(0) =~= s@);
    while i < s.len() && acc < b
        invariant
            i <= s@.len(),
            acc <= b,
            byte_index(s@, b as int) == (match byte_index(s@.skip(i as int), b - acc) {
                Some(k) => Some(k + i),
                None => None,
            }),
        decreases s.len() - i,
    {
        let ghost t = s@.skip(i as int);
        assert(t[0] == s@[i as int]);
        assert(t.drop_first() =~= s@.skip(i + 1));
        let k = char_utf8_len(s[i]) as u128;
        if k > b - acc {
            assert(byte_index(t.drop_first(), b - acc - k) is None);
            return None;
        }
        acc = acc + k;
        i += 1;
    }
    if acc == b {
        Some(i)
    } else {
        assert(s@.skip(i as int) =~= Seq::<char>::empty());
        None
    }
}

/// The characters of bytes `a..b` of `s` (see `byte_slice`).
pub fn slice_bytes(s: &[char], a: u128, b: u128) -> (r: Option<Vec<char>>)
    ensures
        match byte_slice(s@, a as int, b as int) {
            Some(t) => r matches Some(v) && v@ == t,
            None => r is None,
        },
{
    let oi = index_of_byte(s, a);
    let oj = index_of_byte(s, b);
    if oi.is_none() || oj.is_none() {
        return None;
    }
    let i = oi.unwrap();
    let j = oj.unwrap();
    proof {
        lemma_byte_index_bounds(s@, b as int);
    }
    if i > j {
        return None;
    }
    let mut v: Vec<char> = Vec::new();
    let mut k: usize = i;
    while k < j
        invariant
            i <= k <= j,
            j <= s@.len(),
            v@ == s@.subrange(i as int, k as int),
        decreases j - k,
    {
        v.push(s[k]);
        assert(s@.subrange(i as int, k + 1) =~= s@.subrange(i as int, k as int).push(s@[k as int]));
        k += 1;
    }
    Some(v)
}

/// The end-of-block record `-3`.
pub open spec fn is_end_marker(t: Seq<char>) -> bool {
    t == seq!['-', '3']
}

/// `t` begins with the characters `a`, `b`.
pub open spec fn begins(t: Seq<char>, a: char, b: char) -> bool {
    t.len() >= 2 && t[0] == a && t[1] == b
}

fn is_end_marker_exec(t: &Vec<char>) -> (r: bool)
    ensures
        r == is_end_marker(t@),
{
    let r = t.len() == 2 && t[0] == '-' && t[1] == '3';
    assert(r ==> t@ =~= seq!['-', '3']);
    r
}

fn begins_exec(t: &Vec<char>, a: char, b: char) -> (r: bool)
    ensures
        r == begins(t@, a, b),
{
    t.len() >= 2 && t[0] == a && t[1] == b
}

/// A node record: id, and the three coordinate fields as written.
#[derive(Debug, Clone, PartialEq, Eq)]
pub struct NodeRecord {
    pub id: i32,
    pub x: String,
    pub y: String,
    pub z: String,
}

/// Model of a node record.
pub open spec fn node_record_view(r: NodeRecord) -> (i32, Seq<char>, Seq<char>, Seq<char>) {
    (r.id, r.x@, r.y@, r.z@)
}

/// A node line is read when it begins, trimmed, with `-1` and has at least
/// 48 bytes.
pub open spec fn node_line_read(line: Seq<char>) -> bool {
    begins(trim(line), '-', '1') && utf8_len(line) >= 48
}

/// The fields of a node line lie at bytes 2, 12, 24, 36 and 48, all of
/// which fall between characters.
pub open spec fn node_line_sliceable(line: Seq<char>) -> bool {
    &&& byte_index(line, 2) is Some
    &&& byte_index(line, 12) is Some
    &&& byte_index(line, 24) is Some
    &&& byte_index(line, 36) is Some
    &&& byte_index(line, 48) is Some
}

/// What a node line gives: its id (bytes 2..12) when that is an integer,
/// with its coordinate fields (bytes 12..24, 24..36, 36..48), trimmed.
pub open spec fn node_record(line: Seq<char>) -> Option<(i32, Seq<char>, Seq<char>, Seq<char>)> {
    match (byte_slice(line, 2, 12), byte_slice(line, 12, 24), byte_slice(line, 24, 36), byte_slice(line, 36, 48)) {
        (Some(a), Some(x), Some(y), Some(z)) => match parse_i32_view(trim(a)) {
            Some(id) => Some((id, trim(x), trim(y), trim(z))),
            None => None,
        },
        _ => None,
    }
}

/// The node records of the block that starts at line `pos`, and the line
/// after the block: it ends after a blank line or a `-3` record, or at the
/// end of the lines.
pub open spec fn node_block(lines: Seq<Seq<char>>, pos: nat) -> (Seq<(i32, Seq<char>, Seq<char>, Seq<char>)>, nat)
    decreases lines.len() - pos,
{
    if pos >= lines.len() {
        (Seq::empty(), pos)
    } else {
        let line = lines[pos as int];
        let t = trim(line);
        if is_end_marker(t) || t.len() == 0 {
            (Seq::empty(), pos + 1)
        } else {
            let (rest, next) = node_block(lines, pos + 1);
            if node_line_read(line) {
                match node_record(line) {
                    Some(r) => (seq![r] + rest, next),
                    None => (rest, next),
                }
            } else {
                (rest, next)
            }
        }
    }
}

/// Every node line read in the block at `pos` has its fields between
/// characters.
pub open spec fn node_block_ok(lines: Seq<Seq<char>>, pos: nat) -> bool
    decreases lines.len() - pos,
{
    if pos >= lines.len() {
        true
    } else {
        let line = lines[pos as int];
        let t = trim(line);
        if is_end_marker(t) || t.len() == 0 {
            true
        } else {
            (node_line_read(line) ==> node_line_sliceable(line)) && node_block_ok(lines, pos + 1)
        }
    }
}

fn trimmed_field(line: &[char], a: u128, b: u128) -> (r: Vec<char>)
    requires
        byte_index(line@, a as int) is Some,
        byte_index(line@, b as int) is Some,
        a <= b,
    ensures
        byte_slice(line@, a as int, b as int) matches Some(f) && r@ == trim(f),
{
    proof {
        lemma_byte_index_monotone(line@, a as int, b as int);
    }
    let f = slice_bytes(line, a, b).unwrap();
    trim_chars(f.as_slice())
}

/// Whether bytes `2`, `12`, `24`, `36` and `48` of a line fall between
/// characters (see `node_line_sliceable`).
fn node_line_sliceable_exec(line: &[char]) -> (r: bool)
    ensures
        r == node_line_sliceable(line@),
{
    index_of_byte(line, 2).is_some() && index_of_byte(line, 12).is_some() && index_of_byte(line, 24).is_some()
        && index_of_byte(line, 36).is_some() && index_of_byte(line, 48).is_some()
}

/// Reads the node block that starts at line `pos` (see `node_block`); none
/// when a node line read has a field boundary inside a character (see
/// `node_block_ok`).
pub fn read_node_block(lines: &Vec<String>, pos: usize) -> (r: Option<(Vec<NodeRecord>, usize)>)
    requires
        pos <= lines@.len(),
    ensures
        match r {
            Some((ns, next)) => node_block_ok(strings_view(lines@), pos as nat)
                && (ns@.map_values(|n: NodeRecord| node_record_view(n)), next as nat) == node_block(strings_view(lines@), pos as nat),
            None => !node_block_ok(strings_view(lines@), pos as nat),
        },
{
    let ghost lv = strings_view(lines@);
    let mut out: Vec<NodeRecord> = Vec::new();
    let mut p: usize = pos;
    let mut done = false;
    while p < lines.len() && !done
        invariant
            lv == strings_view(lines@),
            pos <= p <= lines@.len(),
            !done ==> node_block_ok(lv, pos as nat) == node_block_ok(lv, p as nat),
            done ==> node_block_ok(lv, pos as nat),
            !done ==> node_block(lv, pos as nat) == (out@.map_values(|n: NodeRecord| node_record_view(n)) + node_block(lv, p as nat).0, node_block(lv, p as nat).1),
            done ==> node_block(lv, pos as nat) == (out@.map_values(|n: NodeRecord| node_record_view(n)), p as nat),
        decreases lines.len() - p + (if done { 0int } else { 1int }),
    {
        let chars = chars_of(lines[p].as_str());
        let ghost line = lv[p as int];
        assert(line == chars@);
        let t = trim_chars(chars.as_slice());
        let ghost before = out@.map_values(|n: NodeRecord| node_record_view(n));
        if is_end_marker_exec(&t) || t.len() == 0 {
            assert(before + Seq::<(i32, Seq<char>, Seq<char>, Seq<char>)>::empty() =~= before);
            done = true;
            p += 1;
        } else {
            if begins_exec(&t, '-', '1') && utf8_len_at_least(chars.as_slice(), 48) {
                if !node_line_sliceable_exec(chars.as_slice()) {
                    return None;
                }
                proof {
                    lemma_byte_index_monotone(line, 2, 12);
                    lemma_byte_index_monotone(line, 12, 24);
                    lemma_byte_index_monotone(line, 24, 36);
                    lemma_byte_index_monotone(line, 36, 48);
                }
                let a = trimmed_field(chars.as_slice(), 2, 12);
                let x = trimmed_field(chars.as_slice(), 12, 24);
                let y = trimmed_field(chars.as_slice(), 24, 36);
                let z = trimmed_field(chars.as_slice(), 36, 48);
                match parse_i32(a.as_slice()) {
                    Some(id) => {
                        let rec = NodeRecord { id, x: string_from(x.as_slice()), y: string_from(y.as_slice()), z: string_from(z.as_slice()) };
                        out.push(rec);
                        assert(out@.map_values(|n: NodeRecord| node_record_view(n)) =~= before.push(node_record_view(rec)));
                        assert(before.push(node_record_view(rec)) + node_block(lv, (p + 1) as nat).0
                            =~= before + (seq![node_record_view(rec)] + node_block(lv, (p + 1) as nat).0));
                    },
                    None => {},
                }
            }
            p += 1;
        }
    }
    if !done {
        assert(out@.map_values(|n: NodeRecord| node_record_view(n)) + Seq::<(i32, Seq<char>, Seq<char>, Seq<char>)>::empty()
            =~= out@.map_values(|n: NodeRecord| node_record_view(n)));
    }
    Some((out, p))
}

/// Reading a node block moves forward and stays within the lines.
pub proof fn lemma_node_block_range(lines: Seq<Seq<char>>, pos: nat)
    requires
        pos <= lines.len(),
    ensures
        pos <= node_block(lines, pos).1 <= lines.len(),
    decreases lines.len() - pos,
{
    if pos < lines.len() {
        let t = trim(lines[pos as int]);
        if !(is_end_marker(t) || t.len() == 0) {
            lemma_node_block_range(lines, pos + 1);
        }
    }
}

/// The node ids of a continuation line's data, from its 10-byte chunk `k`
/// on: each chunk that falls between characters and holds an integer,
/// trimmed, gives one id.
pub open spec fn chunk_nodes(data: Seq<char>, k: nat) -> Seq<i32>
    decreases (if utf8_len(data) > 10 * k { utf8_len(data) - 10 * k } else { 0 }),
{
    let total = utf8_len(data);
    let start: int = 10 * (k as int);
    if start >= total {
        Seq::empty()
    } else {
        let end: int = if start + 10 < total { start + 10 } else { total };
        let here = match byte_slice(data, start, end) {
            Some(c) => match parse_i32_view(trim(c)) {
                Some(v) => seq![v],
                None => Seq::empty(),
            },
            None => Seq::empty(),
        };
        here + chunk_nodes(data, k + 1)
    }
}

/// The node ids of the data of a continuation line (see `chunk_nodes`).
pub fn chunk_node_ids(data: &[char]) -> (r: Vec<i32>)
    ensures
        r@ == chunk_nodes(data@, 0),
{
    let total = utf8_length(data);
    let n = data.len();
    assert(n == data@.len());
    let mut out: Vec<i32> = Vec::new();
    let mut k: u128 = 0;
    proof {
        lemma_utf8_len_nonneg(data@);
    }
    assert(out@ + chunk_nodes(data@, 0) =~= chunk_nodes(data@, 0));
    while 10 * k < total
        invariant
            total == utf8_len(data@),
            data@.len() <= usize::MAX,
            total <= 4 * data@.len(),
            10 * k <= total + 10,
            chunk_nodes(data@, 0) == out@ + chunk_nodes(data@, k as nat),
        decreases total - 10 * k + 10,
    {
        let start = 10 * k;
        let end = if start + 10 < total { start + 10 } else { total };
        let ghost before = out@;
        match slice_bytes(data, start, end) {
            Some(c) => {
                let t = trim_chars(c.as_slice());
                match parse_i32(t.as_slice()) {
                    Some(v) => {
                        out.push(v);
                        assert(out@ + chunk_nodes(data@, (k + 1) as nat) =~= before + (seq![v] + chunk_nodes(data@, (k + 1) as nat)));
                    },
                    None => {
                        assert(before + (Seq::<i32>::empty() + chunk_nodes(data@, (k + 1) as nat)) =~= out@ + chunk_nodes(data@, (k + 1) as nat));
                    },
                }
            },
            None => {
                assert(before + (Seq::<i32>::empty() + chunk_nodes(data@, (k + 1) as nat)) =~= out@ + chunk_nodes(data@, (k + 1) as nat));
            },
        }
        k += 1;
    }
    assert(out@ + Seq::<i32>::empty() =~= out@);
    out
}

/// The node ids of the continuation lines that start at line `pos`, and
/// the line after the last one read: reading stops after the first line
/// that does not begin, trimmed, with `-2` (that line is read too).
pub open spec fn element_nodes(lines: Seq<Seq<char>>, pos: nat) -> (Seq<i32>, nat)
    decreases lines.len() - pos,
{
    if pos >= lines.len() {
        (Seq::empty(), pos)
    } else {
        let line = lines[pos as int];
        if !begins(trim(line), '-', '2') {
            (Seq::empty(), pos + 1)
        } else {
            let data = line.skip(byte_index(line, 2)->0);
            let (rest, next) = element_nodes(lines, pos + 1);
            (chunk_nodes(data, 0) + rest, next)
        }
    }
}

/// Every continuation line read from `pos` has byte 2 between characters.
pub open spec fn element_nodes_ok(lines: Seq<Seq<char>>, pos: nat) -> bool
    decreases lines.len() - pos,
{
    if pos >= lines.len() {
        true
    } else {
        let line = lines[pos as int];
        if !begins(trim(line), '-', '2') {
            true
        } else {
            byte_index(line, 2) is Some && element_nodes_ok(lines, pos + 1)
        }
    }
}

/// Reads the continuation lines that start at line `pos` (see
/// `element_nodes`); none when such a line has byte 2 inside a character
/// (see `element_nodes_ok`).
pub fn read_element_nodes(lines: &Vec<String>, pos: usize) -> (r: Option<(Vec<i32>, usize)>)
    requires
        pos <= lines@.len(),
    ensures
        match r {
            Some((ids, next)) => element_nodes_ok(strings_view(lines@), pos as nat)
                && (ids@, next as nat) == element_nodes(strings_view(lines@), pos as nat),
            None => !element_nodes_ok(strings_view(lines@), pos as nat),
        },
{
    let ghost lv = strings_view(lines@);
    let mut out: Vec<i32> = Vec::new();
    let mut p: usize = pos;
    let mut done = false;
    assert(out@ + element_nodes(lv, pos as nat).0 =~= element_nodes(lv, pos as nat).0);
    while p < lines.len() && !done
        invariant
            lv == strings_view(lines@),
            pos <= p <= lines@.len(),
            !done ==> element_nodes_ok(lv, pos as nat) == element_nodes_ok(lv, p as nat),
            done ==> element_nodes_ok(lv, pos as nat),
            !done ==> element_nodes(lv, pos as nat) == (out@ + element_nodes(lv, p as nat).0, element_nodes(lv, p as nat).1),
            done ==> element_nodes(lv, pos as nat) == (out@, p as nat),
        decreases lines.len() - p + (if done { 0int } else { 1int }),
    {
        let chars = chars_of(lines[p].as_str());
        let ghost line = lv[p as int];
        assert(line == chars@);
        let t = trim_chars(chars.as_slice());
        let ghost before = out@;
        if !begins_exec(&t, '-', '2') {
            assert(before + Seq::<i32>::empty() =~= before);
            done = true;
        } else {
            let oi = index_of_byte(chars.as_slice(), 2);
            if oi.is_none() {
                return None;
            }
            let i = oi.unwrap();
            proof {
                lemma_byte_index_bounds(line, 2);
            }
            let mut data: Vec<char> = Vec::new();
            let mut j: usize = i;
            while j < chars.len()
                invariant
                    i <= j <= chars@.len(),
                    data@ == chars@.subrange(i as int, j as int),
                decreases chars.len() - j,
            {
                data.push(chars[j]);
                assert(chars@.subrange(i as int, j + 1) =~= chars@.subrange(i as int, j as int).push(chars@[j as int]));
                j += 1;
            }
            assert(data@ =~= line.skip(i as int));
            let ids = chunk_node_ids(data.as_slice());
            let mut q: usize = 0;
            while q < ids.len()
                invariant
                    q <= ids@.len(),
                    out@ == before + ids@.take(q as int),
                decreases ids.len() - q,
            {
                out.push(ids[q]);
                assert(ids@.take(q + 1) =~= ids@.take(q as int).push(ids@[q as int]));
                q += 1;
            }
            assert(ids@.take(ids@.len() as int) =~= ids@);
            assert(before + (ids@ + element_nodes(lv, (p + 1) as nat).0) =~= out@ + element_nodes(lv, (p + 1) as nat).0);
        }
        p += 1;
    }
    if !done {
        assert(out@ + Seq::<i32>::empty() =~= out@);
    }
    Some((out, p))
}

/// Continuation reading moves forward and stays within the lines.
pub proof fn lemma_element_nodes_range(lines: Seq<Seq<char>>, pos: nat)
    requires
        pos <= lines.len(),
    ensures
        pos <= element_nodes(lines, pos).1 <= lines.len(),
        pos < lines.len() ==> pos < element_nodes(lines, pos).1,
    decreases lines.len() - pos,
{
    if pos < lines.len() && begins(trim(lines[pos as int]), '-', '2') {
        lemma_element_nodes_range(lines, pos + 1);
    }
}

/// An element header line is read when it begins, trimmed, with `-1` and
/// has at least 17 bytes.
pub open spec fn element_line_read(line: Seq<char>) -> bool {
    begins(trim(line), '-', '1') && utf8_len(line) >= 17
}

/// The fields of an element header line lie at bytes 2, 12 and 17, all of
/// which fall between characters.
pub open spec fn element_line_sliceable(line: Seq<char>) -> bool {
    &&& byte_index(line, 2) is Some
    &&& byte_index(line, 12) is Some
    &&& byte_index(line, 17) is Some
}

/// What an element header line gives: its id (bytes 2..12) and type code
/// (bytes 12..17), when both are integers.
pub open spec fn element_header(line: Seq<char>) -> Option<(i32, i32)> {
    match (byte_slice(line, 2, 12), byte_slice(line, 12, 17)) {
        (Some(a), Some(b)) => match (parse_i32_view(trim(a)), parse_i32_view(trim(b))) {
            (Some(id), Some(ty)) => Some((id, ty)),
            _ => None,
        },
        _ => None,
    }
}

/// The elements of the block that starts at line `pos` (id, type code and
/// nodes, in the order read), and the line after the block. A header line
/// is followed by its continuation lines; the line that ends those is
/// consumed with them.
pub open spec fn element_block(lines: Seq<Seq<char>>, pos: nat) -> (Seq<(i32, i32, Seq<i32>)>, nat)
    decreases lines.len() - pos,
{
    if pos >= lines.len() {
        (Seq::empty(), pos)
    } else {
        let line = lines[pos as int];
        let t = trim(line);
        if is_end_marker(t) || t.len() == 0 {
            (Seq::empty(), pos + 1)
        } else if element_line_read(line) && element_header(line) is Some {
            let (id, ty) = element_header(line)->0;
            let (ns, after) = element_nodes(lines, pos + 1);
            proof {
                lemma_element_nodes_range(lines, pos + 1);
            }
            let (rest, next) = element_block(lines, after);
            (seq![(id, ty, ns)] + rest, next)
        } else {
            element_block(lines, pos + 1)
        }
    }
}

/// Every line that the element block at `pos` slices has its fields
/// between characters.
pub open spec fn element_block_ok(lines: Seq<Seq<char>>, pos: nat) -> bool
    decreases lines.len() - pos,
{
    if pos >= lines.len() {
        true
    } else {
        let line = lines[pos as int];
        let t = trim(line);
        if is_end_marker(t) || t.len() == 0 {
            true
        } else if element_line_read(line) {
            element_line_sliceable(line) && if element_header(line) is Some {
                proof {
                    lemma_element_nodes_range(lines, pos + 1);
                }
                element_nodes_ok(lines, pos + 1) && element_block_ok(lines, element_nodes(lines, pos + 1).1)
            } else {
                element_block_ok(lines, pos + 1)
            }
        } else {
            element_block_ok(lines, pos + 1)
        }
    }
}

/// Model of an element.
pub open spec fn frd_element_view(e: FrdElement) -> (i32, i32, Seq<i32>) {
    (e.id, e.element_type, e.nodes@)
}

/// Whether bytes `2`, `12` and `17` of a line fall between characters
/// (see `element_line_sliceable`).
fn element_line_sliceable_exec(line: &[char]) -> (r: bool)
    ensures
        r == element_line_sliceable(line@),
{
    index_of_byte(line, 2).is_some() && index_of_byte(line, 12).is_some() && index_of_byte(line, 17).is_some()
}

/// Reads the element block that starts at line `pos` (see
/// `element_block`); none when a line read has a field boundary inside a
/// character (see `element_block_ok`).
pub fn read_element_block(lines: &Vec<String>, pos: usize) -> (r: Option<(Vec<FrdElement>, usize)>)
    requires
        pos <= lines@.len(),
    ensures
        match r {
            Some((es, next)) => element_block_ok(strings_view(lines@), pos as nat)
                && (es@.map_values(|e: FrdElement| frd_element_view(e)), next as nat) == element_block(strings_view(lines@), pos as nat),
            None => !element_block_ok(strings_view(lines@), pos as nat),
        },
{
    let ghost lv = strings_view(lines@);
    let mut out: Vec<FrdElement> = Vec::new();
    let mut p: usize = pos;
    let mut done = false;
    assert(out@.map_values(|e: FrdElement| frd_element_view(e)) + element_block(lv, pos as nat).0 =~= element_block(lv, pos as nat).0);
    while p < lines.len() && !done
        invariant
            lv == strings_view(lines@),
            pos <= p <= lines@.len(),
            !done ==> element_block_ok(lv, pos as nat) == element_block_ok(lv, p as nat),
            done ==> element_block_ok(lv, pos as nat),
            !done ==> element_block(lv, pos as nat) == (out@.map_values(|e: FrdElement| frd_element_view(e)) + element_block(lv, p as nat).0, element_block(lv, p as nat).1),
            done ==> element_block(lv, pos as nat) == (out@.map_values(|e: FrdElement| frd_element_view(e)), p as nat),
        decreases lines.len() - p + (if done { 0int } else { 1int }),
    {
        let chars = chars_of(lines[p].as_str());
        let ghost line = lv[p as int];
        assert(line == chars@);
        let t = trim_chars(chars.as_slice());
        let ghost before = out@.map_values(|e: FrdElement| frd_element_view(e));
        if is_end_marker_exec(&t) || t.len() == 0 {
            assert(before + Seq::<(i32, i32, Seq<i32>)>::empty() =~= before);
            done = true;
            p += 1;
        } else {
            let mut header: Option<(i32, i32)> = None;
            if begins_exec(&t, '-', '1') && utf8_len_at_least(chars.as_slice(), 17) {
                if !element_line_sliceable_exec(chars.as_slice()) {
                    return None;
                }
                proof {
                    lemma_byte_index_monotone(line, 2, 12);
                    lemma_byte_index_monotone(line, 12, 17);
                }
                let a = trimmed_field(chars.as_slice(), 2, 12);
                let b = trimmed_field(chars.as_slice(), 12, 17);
                match (parse_i32(a.as_slice()), parse_i32(b.as_slice())) {
                    (Some(id), Some(ty)) => {
                        header = Some((id, ty));
                    },
                    _ => {},
                }
            }
            match header {
                Some((id, ty)) => {
                    assert(element_header(line) == Some((id, ty)));
                    proof {
                        lemma_element_nodes_range(lv, (p + 1) as nat);
                    }
                    let (nodes, after) = match read_element_nodes(lines, p + 1) {
                        Some(found) => found,
                        None => {
                            return None;
                        },
                    };
                    let e = FrdElement { id, element_type: ty, nodes };
                    out.push(e);
                    assert(out@.map_values(|e: FrdElement| frd_element_view(e)) =~= before.push(frd_element_view(e)));
                    assert(before.push(frd_element_view(e)) + element_block(lv, after as nat).0
                        =~= before + (seq![frd_element_view(e)] + element_block(lv, after as nat).0));
                    p = after;
                },
                None => {
                    p += 1;
                },
            }
        }
    }
    if !done {
        assert(out@.map_values(|e: FrdElement| frd_element_view(e)) + Seq::<(i32, i32, Seq<i32>)>::empty()
            =~= out@.map_values(|e: FrdElement| frd_element_view(e)));
    }
    Some((out, p))
}

/// The line after the result block that starts at line `pos`: it ends
/// after a `-3` record or at the end of the lines. Its value lines are
/// passed over.
pub open spec fn result_block_end(lines: Seq<Seq<char>>, pos: nat) -> nat
    decreases lines.len() - pos,
{
    if pos >= lines.len() {
        pos
    } else if is_end_marker(trim(lines[pos as int])) {
        pos + 1
    } else {
        result_block_end(lines, pos + 1)
    }
}

/// Skips the result block that starts at line `pos` (see
/// `result_block_end`); the block's datasets are not read.
pub fn read_result_block(lines: &Vec<String>, pos: usize) -> (r: usize)
    requires
        pos <= lines@.len(),
    ensures
        r as nat == result_block_end(strings_view(lines@), pos as nat),
{
    let ghost lv = strings_view(lines@);
    let mut p: usize = pos;
    let mut done = false;
    while p < lines.len() && !done
        invariant
            lv == strings_view(lines@),
            pos <= p <= lines@.len(),
            !done ==> result_block_end(lv, pos as nat) == result_block_end(lv, p as nat),
            done ==> result_block_end(lv, pos as nat) == p as nat,
        decreases lines.len() - p + (if done { 0int } else { 1int }),
    {
        let chars = chars_of(lines[p].as_str());
        assert(lv[p as int] == chars@);
        let t = trim_chars(chars.as_slice());
        p += 1;
        let ends = is_end_marker_exec(&t);
        let next_set = t.len() >= 5 && t[0] == ' ' && t[1] == ' ' && t[2] == '1' && t[3] == '0' && t[4] == '0';
        if ends || next_set {
            if !next_set {
                done = true;
            }
        }
    }
    p
}

/// Reading an element block moves forward and stays within the lines.
pub proof fn lemma_element_block_range(lines: Seq<Seq<char>>, pos: nat)
    requires
        pos <= lines.len(),
    ensures
        pos <= element_block(lines, pos).1 <= lines.len(),
    decreases lines.len() - pos,
{
    if pos < lines.len() {
        let line = lines[pos as int];
        let t = trim(line);
        if is_end_marker(t) || t.len() == 0 {
        } else if element_line_read(line) && element_header(line) is Some {
            lemma_element_nodes_range(lines, pos + 1);
            lemma_element_block_range(lines, element_nodes(lines, pos + 1).1);
        } else {
            lemma_element_block_range(lines, pos + 1);
        }
    }
}

/// Skipping a result block moves forward and stays within the lines.
pub proof fn lemma_result_block_range(lines: Seq<Seq<char>>, pos: nat)
    requires
        pos <= lines.len(),
    ensures
        pos <= result_block_end(lines, pos) <= lines.len(),
    decreases lines.len() - pos,
{
    if pos < lines.len() && !is_end_marker(trim(lines[pos as int])) {
        lemma_result_block_range(lines, pos + 1);
    }
}

/// The record key of a line: its first five bytes (the whole line when it
/// is shorter), or none when byte 5 falls inside a character.
pub open spec fn frd_key(line: Seq<char>) -> Option<Seq<char>> {
    if utf8_len(line) <= 5 {
        Some(line)
    } else {
        byte_slice(line, 0, 5)
    }
}

/// Model of what reading FRD lines gives: header records, node records,
/// elements and the number of result blocks.
#[verifier::ext_equal]
pub struct FrdScanView {
    pub info: Seq<Seq<char>>,
    pub nodes: Seq<(i32, Seq<char>, Seq<char>, Seq<char>)>,
    pub elements: Seq<(i32, i32, Seq<i32>)>,
    pub blocks: nat,
}

/// Nothing read.
pub open spec fn no_records() -> FrdScanView {
    FrdScanView { info: Seq::empty(), nodes: Seq::empty(), elements: Seq::empty(), blocks: 0 }
}

/// The records `a`, followed by those of `o` when there are any.
pub open spec fn extend(a: FrdScanView, o: Option<FrdScanView>) -> Option<FrdScanView> {
    match o {
        Some(b) => Some(FrdScanView {
            info: a.info + b.info,
            nodes: a.nodes + b.nodes,
            elements: a.elements + b.elements,
            blocks: a.blocks + b.blocks,
        }),
        None => None,
    }
}

/// What the lines from `pos` on give. A line blank when trimmed is passed
/// over; any other is dispatched on its record key: a key starting with
/// `1` is a header record (kept trimmed), `    2` or `   2C` opens a node
/// block, `    3` or `   3C` an element block, `  100` a result block, each
/// read by its block reader from the next line on; other keys are passed
/// over. None when a key or a block field would be cut inside a
/// character.
pub open spec fn frd_records(lines: Seq<Seq<char>>, pos: nat) -> Option<FrdScanView>
    decreases lines.len() - pos,
{
    if pos >= lines.len() {
        Some(no_records())
    } else {
        let line = lines[pos as int];
        let t = trim(line);
        if t.len() == 0 {
            frd_records(lines, pos + 1)
        } else {
            match frd_key(line) {
                None => None,
                Some(key) => if key.len() > 0 && key[0] == '1' {
                    extend(FrdScanView { info: seq![t], ..no_records() }, frd_records(lines, pos + 1))
                } else if key == "    2"@ || key == "   2C"@ {
                    if node_block_ok(lines, pos + 1) {
                        let (ns, next) = node_block(lines, pos + 1);
                        proof {
                            lemma_node_block_range(lines, pos + 1);
                        }
                        extend(FrdScanView { nodes: ns, ..no_records() }, frd_records(lines, next))
                    } else {
                        None
                    }
                } else if key == "    3"@ || key == "   3C"@ {
                    if element_block_ok(lines, pos + 1) {
                        let (es, next) = element_block(lines, pos + 1);
                        proof {
                            lemma_element_block_range(lines, pos + 1);
                        }
                        extend(FrdScanView { elements: es, ..no_records() }, frd_records(lines, next))
                    } else {
                        None
                    }
                } else if key == "  100"@ {
                    let next = result_block_end(lines, pos + 1);
                    proof {
                        lemma_result_block_range(lines, pos + 1);
                    }
                    extend(FrdScanView { blocks: 1, ..no_records() }, frd_records(lines, next))
                } else {
                    frd_records(lines, pos + 1)
                },
            }
        }
    }
}

proof fn lemma_extend_assoc(a: FrdScanView, b: FrdScanView, o: Option<FrdScanView>)
    ensures
        extend(a, extend(b, o)) == extend(
            FrdScanView {
                info: a.info + b.info,
                nodes: a.nodes + b.nodes,
                elements: a.elements + b.elements,
                blocks: a.blocks + b.blocks,
            },
            o,
        ),
{
    match o {
        Some(c) => {
            assert(a.info + (b.info + c.info) =~= (a.info + b.info) + c.info);
            assert(a.nodes + (b.nodes + c.nodes) =~= (a.nodes + b.nodes) + c.nodes);
            assert(a.elements + (b.elements + c.elements) =~= (a.elements + b.elements) + c.elements);
        },
        None => {},
    }
}

/// What reading the lines of an FRD file gives.
pub struct FrdScan {
    /// Header records.
    pub header: FrdHeader,
    /// Node records read, in the order read.
    pub nodes: Vec<NodeRecord>,
    /// Elements read, in the order read.
    pub elements: Vec<FrdElement>,
    /// Result blocks met.
    pub result_blocks: usize,
}

/// Model of a scan.
pub open spec fn scan_view(info: Seq<String>, nodes: Seq<NodeRecord>, elements: Seq<FrdElement>, blocks: usize) -> FrdScanView {
    FrdScanView {
        info: info.map_values(|s: String| s@),
        nodes: nodes.map_values(|n: NodeRecord| node_record_view(n)),
        elements: elements.map_values(|e: FrdElement| frd_element_view(e)),
        blocks: blocks as nat,
    }
}

fn push_all_nodes(out: &mut Vec<NodeRecord>, ns: Vec<NodeRecord>)
    ensures
        final(out)@ == old(out)@ + ns@,
{
    let mut ns = ns;
    let ghost start = out@;
    let ghost all = ns@;
    out.append(&mut ns);
    assert(out@ =~= start + all);
}

fn push_all_elements(out: &mut Vec<FrdElement>, es: Vec<FrdElement>)
    ensures
        final(out)@ == old(out)@ + es@,
{
    let mut es = es;
    let ghost start = out@;
    let ghost all = es@;
    out.append(&mut es);
    assert(out@ =~= start + all);
}

/// Reads the lines of an FRD file, as `BufRead::read_line` gives them (see
/// `frd_records`); none when a record key or a block field would be cut
/// inside a character.
pub fn scan_frd(lines: &Vec<String>) -> (r: Option<FrdScan>)
    ensures
        match r {
            Some(scan) => frd_records(strings_view(lines@), 0) == Some(
                scan_view(scan.header.info@, scan.nodes@, scan.elements@, scan.result_blocks),
            ) && scan.header.version@ == Seq::<char>::empty() && scan.header.job_name@ == Seq::<char>::empty(),
            None => frd_records(strings_view(lines@), 0) is None,
        },
{
    let ghost lv = strings_view(lines@);
    let mut info: Vec<String> = Vec::new();
    let mut nodes: Vec<NodeRecord> = Vec::new();
    let mut elements: Vec<FrdElement> = Vec::new();
    let mut result_blocks: usize = 0;
    let mut p: usize = 0;
    assert(scan_view(info@, nodes@, elements@, result_blocks) =~= no_records());
    proof {
        lemma_extend_assoc(no_records(), no_records(), frd_records(lv, 0));
        match frd_records(lv, 0) {
            Some(c) => {
                assert(no_records().info + c.info =~= c.info);
                assert(no_records().nodes + c.nodes =~= c.nodes);
                assert(no_records().elements + c.elements =~= c.elements);
            },
            None => {},
        }
    }
    while p < lines.len()
        invariant
            lv == strings_view(lines@),
            p <= lines@.len(),
            result_blocks <= p,
            frd_records(lv, 0) == extend(scan_view(info@, nodes@, elements@, result_blocks), frd_records(lv, p as nat)),
        decreases lines.len() - p,
    {
        let chars = chars_of(lines[p].as_str());
        let ghost line = lv[p as int];
        assert(line == chars@);
        let t = trim_chars(chars.as_slice());
        let ghost acc = scan_view(info@, nodes@, elements@, result_blocks);
        if t.len() == 0 {
            p += 1;
        } else {
            let key: Vec<char> = if utf8_len_at_least(chars.as_slice(), 6) {
                match slice_bytes(chars.as_slice(), 0, 5) {
                    Some(k) => k,
                    None => {
                        return None;
                    },
                }
            } else {
                chars.clone()
            };
            assert(frd_key(line) == Some(key@));
            if key.len() > 0 && key[0] == '1' {
                let h = string_from(t.as_slice());
                info.push(h);
                proof {
                    let one = FrdScanView { info: seq![t@], ..no_records() };
                    lemma_extend_assoc(acc, one, frd_records(lv, (p + 1) as nat));
                    assert(scan_view(info@, nodes@, elements@, result_blocks) =~= FrdScanView {
                        info: acc.info + one.info,
                        nodes: acc.nodes + one.nodes,
                        elements: acc.elements + one.elements,
                        blocks: acc.blocks + one.blocks,
                    });
                }
                p += 1;
            } else if chars_are(&key, "    2") || chars_are(&key, "   2C") {
                let (ns, next) = match read_node_block(lines, p + 1) {
                    Some(found) => found,
                    None => {
                        return None;
                    },
                };
                proof {
                    lemma_node_block_range(lv, (p + 1) as nat);
                    let one = FrdScanView { nodes: ns@.map_values(|n: NodeRecord| node_record_view(n)), ..no_records() };
                    lemma_extend_assoc(acc, one, frd_records(lv, next as nat));
                }
                let ghost before_nodes = nodes@;
                push_all_nodes(&mut nodes, ns);
                proof {
                    assert(nodes@.map_values(|n: NodeRecord| node_record_view(n))
                        =~= before_nodes.map_values(|n: NodeRecord| node_record_view(n)) + ns@.map_values(|n: NodeRecord| node_record_view(n)));
                    assert(acc.info + Seq::<Seq<char>>::empty() =~= acc.info);
                    assert(acc.elements + Seq::<(i32, i32, Seq<i32>)>::empty() =~= acc.elements);
                }
                p = next;
            } else if chars_are(&key, "    3") || chars_are(&key, "   3C") {
                let (es, next) = match read_element_block(lines, p + 1) {
                    Some(found) => found,
                    None => {
                        return None;
                    },
                };
                proof {
                    lemma_element_block_range(lv, (p + 1) as nat);
                    let one = FrdScanView { elements: es@.map_values(|e: FrdElement| frd_element_view(e)), ..no_records() };
                    lemma_extend_assoc(acc, one, frd_records(lv, next as nat));
                }
                let ghost before_elements = elements@;
                push_all_elements(&mut elements, es);
                proof {
                    assert(elements@.map_values(|e: FrdElement| frd_element_view(e))
                        =~= before_elements.map_values(|e: FrdElement| frd_element_view(e)) + es@.map_values(|e: FrdElement| frd_element_view(e)));
                    assert(acc.info + Seq::<Seq<char>>::empty() =~= acc.info);
                    assert(acc.nodes + Seq::<(i32, Seq<char>, Seq<char>, Seq<char>)>::empty() =~= acc.nodes);
                }
                p = next;
            } else if chars_are(&key, "  100") {
                let next = read_result_block(lines, p + 1);
                proof {
                    lemma_result_block_range(lv, (p + 1) as nat);
                    let one = FrdScanView { blocks: 1, ..no_records() };
                    lemma_extend_assoc(acc, one, frd_records(lv, next as nat));
                    assert(acc.info + Seq::<Seq<char>>::empty() =~= acc.info);
                    assert(acc.nodes + Seq::<(i32, Seq<char>, Seq<char>, Seq<char>)>::empty() =~= acc.nodes);
                    assert(acc.elements + Seq::<(i32, i32, Seq<i32>)>::empty() =~= acc.elements);
                }
                result_blocks = result_blocks + 1;
                p = next;
            } else {
                p += 1;
            }
        }
    }
    proof {
        let acc = scan_view(info@, nodes@, elements@, result_blocks);
        assert(acc.info + Seq::<Seq<char>>::empty() =~= acc.info);
        assert(acc.nodes + Seq::<(i32, Seq<char>, Seq<char>, Seq<char>)>::empty() =~= acc.nodes);
        assert(acc.elements + Seq::<(i32, i32, Seq<i32>)>::empty() =~= acc.elements);
    }
    Some(FrdScan {
        header: FrdHeader { version: String::new(), job_name: String::new(), info },
        nodes,
        elements,
        result_blocks,
    })
}

} // verus!
