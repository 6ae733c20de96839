//! Character-sequence utilities shared by the parsers and report builders:
//! conversion between `str`/`String` and character vectors, Unicode
//! white-space trimming, ASCII case mapping and decimal rendering.
use vstd::prelude::*;
use vstd::string::StringExecFns;

verus! {

broadcast use vstd::string::group_string_axioms;

/// The characters of `s`, in order.
pub fn chars_of(s: &str) -> (v: Vec<char>)
    ensures
        v@ == s@,
{
    let mut v: Vec<char> = Vec::new();
    for c in it: s.chars()
        invariant
            v@ == it.seq().take(it.index() as int),
            it.seq() == s@,
    {
        v.push(c);
    }
    v
}

/// Appends one character to a string (`String::push`).
#[verifier::external_body]
pub fn push_char(s: &mut String, c: char)
    ensures
        final(s)@ == old(s)@.push(c),
{
    s.push(c);
}

/// An owned copy of `s`.
pub fn owned(s: &str) -> (r: String)
    ensures
        r@ == s@,
{
    s.to_string()
}

/// Appends `t` to `s`.
pub fn push_str(s: &mut String, t: &str)
    ensures
        final(s)@ == old(s)@ + t@,
{
    s.append(t);
}

/// The string made of the characters `v`.
pub fn string_from(v: &[char]) -> (s: String)
    ensures
        s@ == v@,
{
    let mut s = String::new();
    let mut i: usize = 0;
    while i < v.len()
        invariant
            i <= v@.len(),
            s@ == v@.subrange(0, i as int),
        decreases v.len() - i,
    {
        push_char(&mut s, v[i]);
        assert(v@.subrange(0, i + 1) =~= v@.subrange(0, i as int).push(v@[i as int]));
        i += 1;
    }
    assert(v@.subrange(0, v@.len() as int) =~= v@);
    s
}

/// Unicode `White_Space` (the characters `char::is_whitespace` accepts).
pub open spec fn is_ws(c: char) -> bool {
    let u = c as u32;
    ||| (9 <= u <= 13)
    ||| u == 32
    ||| u == 0x85
    ||| u == 0xA0
    ||| u == 0x1680
    ||| (0x2000 <= u <= 0x200A)
    ||| u == 0x2028
    ||| u == 0x2029
    ||| u == 0x202F
    ||| u == 0x205F
    ||| u == 0x3000
}

/// Whether `c` is white space.
pub fn is_whitespace(c: char) -> (r: bool)
    ensures
        r == is_ws(c),
{
    let u = c as u32;
    (9 <= u && u <= 13) || u == 32 || u == 0x85 || u == 0xA0 || u == 0x1680 || (0x2000 <= u
        && u <= 0x200A) || u == 0x2028 || u == 0x2029 || u == 0x202F || u == 0x205F || u == 0x3000
}

/// `s` without its leading white space.
pub open spec fn trim_start(s: Seq<char>) -> Seq<char>
    decreases s.len(),
{
    if s.len() > 0 && is_ws(s[0]) {
        trim_start(s.drop_first())
    } else {
        s
    }
}

/// `s` without its trailing white space.
pub open spec fn trim_end(s: Seq<char>) -> Seq<char>
    decreases s.len(),
{
    if s.len() > 0 && is_ws(s.last()) {
        trim_end(s.drop_last())
    } else {
        s
    }
}

/// `s` without leading and trailing white space (`str::trim`).
pub open spec fn trim(s: Seq<char>) -> Seq<char> {
    trim_end(trim_start(s))
}

proof fn lemma_trim_start_first(s: Seq<char>)
    ensures
        trim_start(s).len() > 0 ==> !is_ws(trim_start(s)[0]),
    decreases s.len(),
{
    if s.len() > 0 && is_ws(s[0]) {
        lemma_trim_start_first(s.drop_first());
    }
}

proof fn lemma_trim_end_prefix(s: Seq<char>)
    ensures
        trim_end(s).len() <= s.len(),
        forall|i: int| 0 <= i < trim_end(s).len() ==> trim_end(s)[i] == s[i],
    decreases s.len(),
{
    if s.len() > 0 && is_ws(s.last()) {
        let t = s.drop_last();
        lemma_trim_end_prefix(t);
        assert forall|i: int| 0 <= i < trim_end(s).len() implies trim_end(s)[i] == s[i] by {
            assert(trim_end(s) == trim_end(t));
            assert(t[i] == s[i]);
        }
    }
}

/// A trimmed text that is not empty starts with a character that is not
/// white space.
pub proof fn lemma_trim_first_not_ws(s: Seq<char>)
    ensures
        trim(s).len() > 0 ==> !is_ws(trim(s)[0]),
{
    lemma_trim_start_first(s);
    lemma_trim_end_prefix(trim_start(s));
}

/// `trim_start` drops exactly the white-space run `s[..k]`.
pub proof fn lemma_trim_start_at(s: Seq<char>, k: int)
    requires
        0 <= k <= s.len(),
        forall|i: int| 0 <= i < k ==> is_ws(s[i]),
        k == s.len() || !is_ws(s[k]),
    ensures
        trim_start(s) == s.subrange(k, s.len() as int),
    decreases k,
{
    if k == 0 {
        assert(s.subrange(0, s.len() as int) =~= s);
    } else {
        let t = s.drop_first();
        assert forall|i: int| 0 <= i < k - 1 implies is_ws(t[i]) by {
            assert(t[i] == s[i + 1]);
        }
        lemma_trim_start_at(t, k - 1);
        assert(t.subrange(k - 1, t.len() as int) =~= s.subrange(k, s.len() as int));
    }
}

proof fn lemma_trim_end_at(s: Seq<char>, k: int)
    requires
        0 <= k <= s.len(),
        forall|i: int| k <= i < s.len() ==> is_ws(s[i]),
        k == 0 || !is_ws(s[k - 1]),
    ensures
        trim_end(s) == s.subrange(0, k),
    decreases s.len() - k,
{
    if k == s.len() {
        assert(s.subrange(0, k) =~= s);
    } else {
        let t = s.drop_last();
        assert forall|i: int| k <= i < t.len() implies is_ws(t[i]) by {
            assert(t[i] == s[i]);
        }
        lemma_trim_end_at(t, k);
        assert(t.subrange(0, k) =~= s.subrange(0, k));
    }
}

/// Bounds `(lo, hi)` such that `s[lo..hi]` is `trim(s)`.
pub fn trim_bounds(s: &[char], start: usize, end: usize) -> (r: (usize, usize))
    requires
        start <= end <= s@.len(),
    ensures
        start <= r.0 <= r.1 <= end,
        s@.subrange(r.0 as int, r.1 as int) == trim(s@.subrange(start as int, end as int)),
{
    let ghost t = s@.subrange(start as int, end as int);
    let mut lo = start;
    while lo < end && is_whitespace(s[lo])
        invariant
            start <= lo <= end <= s@.len(),
            t == s@.subrange(start as int, end as int),
            forall|i: int| start <= i < lo ==> is_ws(s@[i]),
        decreases end - lo,
    {
        lo += 1;
    }
    proof {
        assert forall|i: int| 0 <= i < lo - start implies is_ws(t[i]) by {
            assert(t[i] == s@[start + i]);
        }
        if lo < end {
            assert(t[lo - start] == s@[lo as int]);
        }
        lemma_trim_start_at(t, lo - start);
    }
    let ghost u = t.subrange(lo - start, t.len() as int);
    assert(u =~= s@.subrange(lo as int, end as int));
    let mut hi = end;
    while hi > lo && is_whitespace(s[hi - 1])
        invariant
            start <= lo <= hi <= end <= s@.len(),
            u == s@.subrange(lo as int, end as int),
            forall|i: int| hi <= i < end ==> is_ws(s@[i]),
        decreases hi - lo,
    {
        hi -= 1;
    }
    proof {
        assert forall|i: int| hi - lo <= i < u.len() implies is_ws(u[i]) by {
            assert(u[i] == s@[lo + i]);
        }
        if hi > lo {
            assert(u[hi - lo - 1] == s@[hi - 1]);
        }
        lemma_trim_end_at(u, hi - lo);
        assert(u.subrange(0, hi - lo) =~= s@.subrange(lo as int, hi as int));
    }
    (lo, hi)
}

/// `trim(s)` as a new vector.
pub fn trim_chars(s: &[char]) -> (r: Vec<char>)
    ensures
        r@ == trim(s@),
{
    let (lo, hi) = trim_bounds(s, 0, s.len());
    assert(s@.subrange(0, s@.len() as int) =~= s@);
    vstd::slice::slice_to_vec(vstd::slice::slice_subrange(s, lo, hi))
}

/// Upper-case ASCII letter for a lower-case one, other characters unchanged.
pub open spec fn ascii_upper(c: char) -> char {
    if 'a' <= c && c <= 'z' {
        ((c as u32) - 32) as char
    } else {
        c
    }
}

/// `s` with ASCII letters made upper case (`str::to_ascii_uppercase`).
pub open spec fn ascii_upper_seq(s: Seq<char>) -> Seq<char> {
    s.map_values(|c: char| ascii_upper(c))
}

/// The upper-case ASCII counterpart of `c`.
pub fn to_ascii_upper_char(c: char) -> (r: char)
    ensures
        r == ascii_upper(c),
{
    if 'a' <= c && c <= 'z' {
        let b = (c as u32) - 32;
        assert(b < 128);
        ((b as u8) as char)
    } else {
        c
    }
}

/// `s` with ASCII letters made upper case.
pub fn to_ascii_upper(s: &[char]) -> (r: Vec<char>)
    ensures
        r@ == ascii_upper_seq(s@),
{
    let mut r: Vec<char> = Vec::new();
    let mut i: usize = 0;
    while i < s.len()
        invariant
            i <= s@.len(),
            r@ == ascii_upper_seq(s@.subrange(0, i as int)),
        decreases s.len() - i,
    {
        r.push(to_ascii_upper_char(s[i]));
        assert(ascii_upper_seq(s@.subrange(0, i + 1)) =~= ascii_upper_seq(s@.subrange(0, i as int)).push(ascii_upper(s@[i as int])));
        i += 1;
    }
    assert(s@.subrange(0, s@.len() as int) =~= s@);
    r
}

/// Lower-case ASCII letter for an upper-case one, other characters unchanged.
pub open spec fn ascii_lower(c: char) -> char {
    if 'A' <= c && c <= 'Z' {
        ((c as u32) + 32) as char
    } else {
        c
    }
}

/// The lower-case ASCII counterpart of `c`.
pub fn to_ascii_lower_char(c: char) -> (r: char)
    ensures
        r == ascii_lower(c),
{
    if 'A' <= c && c <= 'Z' {
        let b = (c as u32) + 32;
        assert(b < 128);
        ((b as u8) as char)
    } else {
        c
    }
}

/// The ASCII digit for `d < 10`.
pub open spec fn digit_char(d: nat) -> char {
    ((48 + d) as u32) as char
}

/// Decimal rendering of `n` without leading zeros (`"0"` for zero).
pub open spec fn decimal(n: nat) -> Seq<char>
    decreases n,
{
    if n < 10 {
        seq![digit_char(n)]
    } else {
        decimal(n / 10).push(digit_char(n % 10))
    }
}

/// Appends the decimal rendering of `n` to `s`.
pub fn push_decimal(s: &mut String, n: usize)
    ensures
        final(s)@ == old(s)@ + decimal(n as nat),
    decreases n,
{
    if n >= 10 {
        push_decimal(s, n / 10);
    }
    let d = (n % 10) as u8;
    push_char(s, (48u8 + d) as char);
    proof {
        assert((48u8 + d) as char == digit_char((n % 10) as nat));
        if n < 10 {
            assert(old(s)@.push(digit_char(n as nat)) =~= old(s)@ + decimal(n as nat));
        } else {
            assert(old(s)@ + decimal((n / 10) as nat) + seq![digit_char((n % 10) as nat)] =~= old(s)@ + decimal(n as nat));
        }
    }
}

/// Decimal rendering of a signed integer (`-` before the magnitude of a
/// negative one).
pub open spec fn signed_decimal(i: int) -> Seq<char> {
    if i < 0 {
        seq!['-'] + decimal((-i) as nat)
    } else {
        decimal(i as nat)
    }
}

/// Appends the decimal rendering of `i` to `s`.
pub fn push_signed(s: &mut String, i: i32)
    ensures
        final(s)@ == old(s)@ + signed_decimal(i as int),
{
    if i < 0 {
        push_char(s, '-');
        let m = (-(i as i64)) as usize;
        push_decimal(s, m);
        assert(old(s)@.push('-') + decimal(m as nat) =~= old(s)@ + signed_decimal(i as int));
    } else {
        push_decimal(s, i as usize);
    }
}

/// What `str::to_uppercase` makes of a string (full Unicode case mapping).
pub uninterp spec fn unicode_uppercase(s: Seq<char>) -> Seq<char>;

/// `str::to_uppercase`: the Unicode upper-case form of `s`. Its result is
/// named, not stated, but for text made of ASCII characters alone, where
/// Unicode upper-casing maps `a`..`z` to `A`..`Z` and keeps every other
/// character (as `str::to_ascii_uppercase` does).
#[verifier::external_body]
pub fn to_uppercase(s: &str) -> (r: String)
    ensures
        r@ == unicode_uppercase(s@),
        vstd::utf8::is_ascii_chars(s@) ==> r@ == ascii_upper_seq(s@),
{
    s.to_uppercase()
}

/// Whether two strings hold the same characters.
pub fn str_eq(a: &str, b: &str) -> (r: bool)
    ensures
        r == (a@ == b@),
{
    let x = chars_of(a);
    let y = chars_of(b);
    if x.len() != y.len() {
        return false;
    }
    let mut i: usize = 0;
    while i < x.len()
        invariant
            x@ == a@,
            y@ == b@,
            x@.len() == y@.len(),
            i <= x@.len(),
            forall|j: int| 0 <= j < i ==> x@[j] == y@[j],
        decreases x.len() - i,
    {
        if x[i] != y[i] {
            return false;
        }
        i += 1;
    }
    assert(x@ =~= y@);
    true
}

/// Whether `a` begins with the characters of `b` (`str::starts_with`).
pub fn has_prefix(a: &[char], b: &str) -> (r: bool)
    ensures
        r == (b@.len() <= a@.len() && a@.take(b@.len() as int) == b@),
{
    let bv = chars_of(b);
    if bv.len() > a.len() {
        return false;
    }
    let mut i: usize = 0;
    while i < bv.len()
        invariant
            bv@ == b@,
            bv@.len() <= a@.len(),
            i <= bv@.len(),
            forall|j: int| 0 <= j < i ==> a@[j] == bv@[j],
        decreases bv.len() - i,
    {
        if a[i] != bv[i] {
            assert(a@.take(bv@.len() as int)[i as int] != b@[i as int]);
            return false;
        }
        i += 1;
    }
    assert(a@.take(bv@.len() as int) =~= bv@);
    true
}

/// Whether `a` ends with the characters of `b` (`str::ends_with`).
pub fn has_suffix(a: &[char], b: &str) -> (r: bool)
    ensures
        r == (b@.len() <= a@.len() && a@.skip(a@.len() - b@.len()) == b@),
{
    let bv = chars_of(b);
    if bv.len() > a.len() {
        return false;
    }
    let n = a.len();
    let off = n - bv.len();
    let mut i: usize = 0;
    while i < bv.len()
        invariant
            bv@ == b@,
            n == a@.len(),
            off + bv@.len() == n,
            i <= bv@.len(),
            forall|j: int| 0 <= j < i ==> a@[off + j] == bv@[j],
        decreases bv.len() - i,
    {
        if a[off + i] != bv[i] {
            assert(a@.skip(off as int)[i as int] != b@[i as int]);
            return false;
        }
        i += 1;
    }
    assert(a@.skip(off as int) =~= bv@);
    true
}

} // verus!
