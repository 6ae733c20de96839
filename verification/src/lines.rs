//! Splitting text into lines the way `str::lines` does: lines end at `'\n'`,
//! a `"\r\n"` ending loses its `'\r'` too, and a final `'\n'` opens no
//! empty line.
use vstd::prelude::*;

verus! {

/// Index of the first `'\n'` at or after `i`, or `s.len()` when there is none.
pub open spec fn next_newline(s: Seq<char>, i: int) -> int
    decreases s.len() - i,
{
    if i >= s.len() {
        s.len() as int
    } else if s[i] == '\n' {
        i
    } else {
        next_newline(s, i + 1)
    }
}

/// A line that ended with `'\n'`, without a trailing `'\r'`.
pub open spec fn strip_cr(line: Seq<char>) -> Seq<char> {
    if line.len() > 0 && line.last() == '\r' {
        line.drop_last()
    } else {
        line
    }
}

/// The lines of `s` that start at or after `i`.
pub open spec fn lines_from(s: Seq<char>, i: int) -> Seq<Seq<char>>
    decreases s.len() - i,
{
    if i < 0 || i >= s.len() {
        seq![]
    } else {
        let j = next_newline(s, i);
        proof {
            lemma_next_newline_bounds(s, i);
        }
        if j >= s.len() {
            seq![s.subrange(i, s.len() as int)]
        } else {
            seq![strip_cr(s.subrange(i, j))] + lines_from(s, j + 1)
        }
    }
}

/// The lines of `s` (`str::lines`).
pub open spec fn lines_of(s: Seq<char>) -> Seq<Seq<char>> {
    lines_from(s, 0)
}

/// The first newline at or after `i` lies between `i` and the end, and nothing before it is a newline.
pub proof fn lemma_next_newline_bounds(s: Seq<char>, i: int)
    requires
        0 <= i <= s.len(),
    ensures
        i <= next_newline(s, i) <= s.len(),
        next_newline(s, i) < s.len() ==> s[next_newline(s, i)] == '\n',
        forall|k: int| i <= k < next_newline(s, i) ==> s[k] != '\n',
    decreases s.len() - i,
{
    if i < s.len() && s[i] != '\n' {
        lemma_next_newline_bounds(s, i + 1);
    }
}

proof fn lemma_next_newline_from(s: Seq<char>, i: int, k: int)
    requires
        0 <= i <= k <= s.len(),
        forall|m: int| i <= m < k ==> s[m] != '\n',
    ensures
        next_newline(s, i) == next_newline(s, k),
    decreases k - i,
{
    if i < k {
        lemma_next_newline_from(s, i + 1, k);
    }
}

/// The `[start, end)` character ranges of the lines of `s`.
pub fn line_bounds(s: &[char]) -> (b: Vec<(usize, usize)>)
    ensures
        b@.len() == lines_of(s@).len(),
        forall|k: int|
            0 <= k < b@.len() ==> (#[trigger] b@[k]).0 <= b@[k].1 <= s@.len() && s@.subrange(
                b@[k].0 as int,
                b@[k].1 as int,
            ) == lines_of(s@)[k],
{
    let mut b: Vec<(usize, usize)> = Vec::new();
    let n = s.len();
    let mut i: usize = 0;
    while i < n
        invariant
            n == s@.len(),
            i <= n,
            lines_of(s@) == b@.map_values(|p: (usize, usize)| s@.subrange(p.0 as int, p.1 as int))
                + lines_from(s@, i as int),
            forall|k: int| 0 <= k < b@.len() ==> (#[trigger] b@[k]).0 <= b@[k].1 <= s@.len(),
        decreases n - i,
    {
        let start = i;
        let mut j = i;
        while j < n && s[j] != '\n'
            invariant
                n == s@.len(),
                start <= j <= n,
                forall|m: int| start <= m < j ==> s@[m] != '\n',
            decreases n - j,
        {
            j += 1;
        }
        proof {
            lemma_next_newline_from(s@, start as int, j as int);
        }
        let ghost before = b@.map_values(|p: (usize, usize)| s@.subrange(p.0 as int, p.1 as int));
        if j == n {
            b.push((start, j));
            proof {
                assert(b@.map_values(|p: (usize, usize)| s@.subrange(p.0 as int, p.1 as int))
                    =~= before.push(s@.subrange(start as int, n as int)));
                assert(lines_from(s@, n as int) =~= Seq::<Seq<char>>::empty());
            }
            i = n;
        } else {
            let mut end = j;
            if end > start && s[end - 1] == '\r' {
                end = end - 1;
            }
            b.push((start, end));
            proof {
                let line = s@.subrange(start as int, j as int);
                if j > start && s@[j - 1] == '\r' {
                    assert(line.last() == '\r');
                    assert(strip_cr(line) =~= s@.subrange(start as int, end as int));
                } else {
                    assert(strip_cr(line) =~= s@.subrange(start as int, end as int));
                }
                assert(b@.map_values(|p: (usize, usize)| s@.subrange(p.0 as int, p.1 as int))
                    =~= before.push(s@.subrange(start as int, end as int)));
            }
            i = j + 1;
        }
    }
    proof {
        assert(lines_from(s@, n as int) =~= Seq::<Seq<char>>::empty());
        let m = b@.map_values(|p: (usize, usize)| s@.subrange(p.0 as int, p.1 as int));
        assert(lines_of(s@) =~= m);
        assert forall|k: int| 0 <= k < b@.len() implies s@.subrange((#[trigger] b@[k]).0 as int, b@[k].1 as int)
            == lines_of(s@)[k] by {
            assert(m[k] == s@.subrange(b@[k].0 as int, b@[k].1 as int));
        }
    }
    b
}

} // verus!
