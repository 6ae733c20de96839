//! What a catalog of legacy source files records of each file: the file
//! extension of its path, its line count and a Rust identifier made from it.
use vstd::prelude::*;
use crate::compat::{module_char, rust_module_from_legacy_path};
use crate::text::{ascii_lower, chars_of, to_ascii_lower_char, push_char};

verus! {

broadcast use vstd::string::group_string_axioms;

/// The part of `s` after its last `c` (all of `s` when it holds no `c`).
pub open spec fn after_last(s: Seq<char>, c: char) -> Seq<char>
    decreases s.len(),
{
    if s.len() == 0 {
        s
    } else if s.last() == c {
        seq![]
    } else {
        after_last(s.drop_last(), c).push(s.last())
    }
}

/// The extension of the last component of a `/`-separated path: the text
/// after the last `.` of the file name, where that `.` is not the name's
/// first character; empty when there is none.
pub open spec fn extension_of(path: Seq<char>) -> Seq<char> {
    let f = after_last(path, '/');
    let e = after_last(f, '.');
    if e.len() + 2 <= f.len() {
        e
    } else {
        seq![]
    }
}

/// `s` with ASCII letters made lower case.
pub open spec fn ascii_lower_seq(s: Seq<char>) -> Seq<char> {
    s.map_values(|c: char| ascii_lower(c))
}

proof fn lemma_after_last_split(s: Seq<char>, c: char, i: int)
    requires
        0 <= i <= s.len(),
        forall|k: int| i <= k < s.len() ==> s[k] != c,
    ensures
        after_last(s, c) == after_last(s.take(i), c) + s.skip(i),
    decreases s.len() - i,
{
    if i < s.len() {
        lemma_after_last_split(s.drop_last(), c, i);
        assert(s.drop_last().take(i) =~= s.take(i));
        assert(s.skip(i) =~= s.drop_last().skip(i).push(s.last()));
    } else {
        assert(s.take(i) =~= s);
        assert(s.skip(i) =~= seq![]);
    }
}

/// Index where the part of `s` after its last `c` begins.
fn after_last_start(s: &Vec<char>, c: char) -> (k: usize)
    ensures
        k <= s@.len(),
        after_last(s@, c) == s@.skip(k as int),
{
    let mut i: usize = s.len();
    while i > 0 && s[i - 1] != c
        invariant
            i <= s@.len(),
            forall|k: int| i <= k < s@.len() ==> s@[k] != c,
        decreases i,
    {
        i -= 1;
    }
    proof {
        lemma_after_last_split(s@, c, i as int);
        if i > 0 {
            assert(s@.take(i as int).last() == c);
        } else {
            assert(s@.take(0) =~= seq![]);
        }
    }
    i
}

/// The file extension of `path` (see `extension_of`), ASCII lower-cased.
pub fn lower_extension(path: &str) -> (r: Vec<char>)
    ensures
        r@ == ascii_lower_seq(extension_of(path@)),
{
    let p = chars_of(path);
    let fs = after_last_start(&p, '/');
    let mut f: Vec<char> = Vec::new();
    let mut i: usize = fs;
    while i < p.len()
        invariant
            fs <= i <= p@.len(),
            f@ == p@.subrange(fs as int, i as int),
        decreases p.len() - i,
    {
        f.push(p[i]);
        assert(p@.subrange(fs as int, i + 1) =~= p@.subrange(fs as int, i as int).push(p@[i as int]));
        i += 1;
    }
    assert(f@ =~= after_last(path@, '/'));
    let es = after_last_start(&f, '.');
    let mut r: Vec<char> = Vec::new();
    if es >= 2 {
        let mut j: usize = es;
        while j < f.len()
            invariant
                es <= j <= f@.len(),
                r@ == ascii_lower_seq(f@.subrange(es as int, j as int)),
            decreases f.len() - j,
        {
            r.push(to_ascii_lower_char(f[j]));
            assert(ascii_lower_seq(f@.subrange(es as int, j + 1))
                =~= ascii_lower_seq(f@.subrange(es as int, j as int)).push(ascii_lower(f@[j as int])));
            j += 1;
        }
        assert(f@.subrange(es as int, f@.len() as int) =~= f@.skip(es as int));
    } else {
        assert(ascii_lower_seq(seq![]) =~= r@);
    }
    r
}

/// Whether the characters of `a` are those of the literal `b`.
pub fn chars_are(a: &Vec<char>, b: &str) -> (r: bool)
    ensures
        r == (a@ == b@),
{
    let bv = chars_of(b);
    if a.len() != bv.len() {
        return false;
    }
    let mut i: usize = 0;
    while i < a.len()
        invariant
            bv@ == b@,
            a@.len() == bv@.len(),
            i <= a@.len(),
            forall|j: int| 0 <= j < i ==> a@[j] == bv@[j],
        decreases a.len() - i,
    {
        if a[i] != bv[i] {
            return false;
        }
        i += 1;
    }
    assert(a@ =~= bv@);
    true
}

/// Number of `\n` bytes in `b`.
pub open spec fn newline_count(b: Seq<u8>) -> nat
    decreases b.len(),
{
    if b.len() == 0 {
        0
    } else {
        newline_count(b.drop_last()) + if b.last() == 10u8 { 1nat } else { 0nat }
    }
}

proof fn lemma_newline_count_bound(b: Seq<u8>)
    ensures
        newline_count(b) <= b.len(),
    decreases b.len(),
{
    if b.len() > 0 {
        lemma_newline_count_bound(b.drop_last());
    }
}

/// Lines of a file: none when it is empty, else one more than its `\n` bytes.
pub open spec fn line_count_of(b: Seq<u8>) -> nat {
    if b.len() == 0 {
        0
    } else {
        newline_count(b) + 1
    }
}

/// Line count of file contents (see `line_count_of`).
pub fn line_count(bytes: &[u8]) -> (r: usize)
    requires
        bytes@.len() < usize::MAX,
    ensures
        r == line_count_of(bytes@),
{
    if bytes.len() == 0 {
        return 0;
    }
    let mut n: usize = 0;
    let mut i: usize = 0;
    while i < bytes.len()
        invariant
            i <= bytes@.len(),
            bytes@.len() < usize::MAX,
            n == newline_count(bytes@.subrange(0, i as int)),
        decreases bytes.len() - i,
    {
        proof {
            assert(bytes@.subrange(0, i + 1).drop_last() =~= bytes@.subrange(0, i as int));
            lemma_newline_count_bound(bytes@.subrange(0, i as int));
        }
        if bytes[i] == 10u8 {
            n += 1;
        }
        i += 1;
    }
    assert(bytes@.subrange(0, bytes@.len() as int) =~= bytes@);
    proof {
        lemma_newline_count_bound(bytes@);
    }
    n + 1
}

/// A Rust identifier for a path: ASCII letters and digits lower-cased,
/// every other character `_`, `_` in front of a leading digit, and `_` for
/// an empty path.
pub open spec fn rust_ident(v: Seq<char>) -> Seq<char> {
    let m = v.map_values(|c: char| module_char(c));
    if m.len() == 0 {
        seq!['_']
    } else if '0' <= m[0] && m[0] <= '9' {
        seq!['_'] + m
    } else {
        m
    }
}

/// A Rust identifier for `value` (see `rust_ident`).
pub fn to_rust_ident(value: &str) -> (r: String)
    ensures
        r@ == rust_ident(value@),
{
    let m = rust_module_from_legacy_path(value);
    let mc = chars_of(m.as_str());
    if mc.len() == 0 {
        let mut out = String::new();
        push_char(&mut out, '_');
        assert(out@ =~= seq!['_']);
        return out;
    }
    let first = mc[0];
    if '0' <= first && first <= '9' {
        let mut out = String::new();
        push_char(&mut out, '_');
        let mut i: usize = 0;
        while i < mc.len()
            invariant
                mc@ == m@,
                i <= mc@.len(),
                out@ == seq!['_'] + mc@.subrange(0, i as int),
            decreases mc.len() - i,
        {
            push_char(&mut out, mc[i]);
            assert(seq!['_'] + mc@.subrange(0, i + 1) =~= (seq!['_'] + mc@.subrange(0, i as int)).push(mc@[i as int]));
            i += 1;
        }
        assert(mc@.subrange(0, mc@.len() as int) =~= mc@);
        out
    } else {
        m
    }
}

/// A character of a Rust identifier made by `rust_ident`.
pub open spec fn is_ident_char(c: char) -> bool {
    ('a' <= c && c <= 'z') || ('0' <= c && c <= '9') || c == '_'
}

/// What `rust_ident` makes is a Rust identifier: not empty, not starting
/// with a digit, and made of lower-case ASCII letters, digits and `_`.
pub proof fn lemma_rust_ident_is_identifier(v: Seq<char>)
    ensures
        rust_ident(v).len() > 0,
        !('0' <= rust_ident(v)[0] && rust_ident(v)[0] <= '9'),
        forall|i: int| 0 <= i < rust_ident(v).len() ==> is_ident_char(#[trigger] rust_ident(v)[i]),
{
    let m = v.map_values(|c: char| module_char(c));
    assert forall|i: int| 0 <= i < m.len() implies is_ident_char(#[trigger] m[i]) by {
        let c = v[i];
        if 'A' <= c && c <= 'Z' {
            assert(ascii_lower(c) as u32 == c as u32 + 32);
        }
    }
    if m.len() > 0 && '0' <= m[0] && m[0] <= '9' {
        let r = seq!['_'] + m;
        assert forall|i: int| 0 <= i < r.len() implies is_ident_char(#[trigger] r[i]) by {
            if i > 0 {
                assert(r[i] == m[i - 1]);
            }
        }
    }
}

} // verus!
