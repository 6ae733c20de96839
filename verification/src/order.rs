//! Lexicographic order of character sequences (the order of `String`s by
//! code point, which is also their byte order).
use vstd::prelude::*;

verus! {

/// `a` comes strictly before `b`.
pub open spec fn lex_lt(a: Seq<char>, b: Seq<char>) -> bool
    decreases a.len(),
{
    if a.len() == 0 {
        b.len() > 0
    } else if b.len() == 0 {
        false
    } else if a[0] < b[0] {
        true
    } else if a[0] == b[0] {
        lex_lt(a.drop_first(), b.drop_first())
    } else {
        false
    }
}

/// The order is irreflexive.
pub proof fn lemma_lex_irreflexive(a: Seq<char>)
    ensures
        !lex_lt(a, a),
    decreases a.len(),
{
    if a.len() > 0 {
        lemma_lex_irreflexive(a.drop_first());
    }
}

/// The order is transitive.
pub proof fn lemma_lex_transitive(a: Seq<char>, b: Seq<char>, c: Seq<char>)
    requires
        lex_lt(a, b),
        lex_lt(b, c),
    ensures
        lex_lt(a, c),
    decreases a.len(),
{
    if a.len() > 0 && b.len() > 0 && c.len() > 0 && a[0] == b[0] && b[0] == c[0] {
        lemma_lex_transitive(a.drop_first(), b.drop_first(), c.drop_first());
    }
}

/// Of two different sequences, one comes before the other.
pub proof fn lemma_lex_total(a: Seq<char>, b: Seq<char>)
    requires
        a != b,
    ensures
        lex_lt(a, b) || lex_lt(b, a),
    decreases a.len(),
{
    if a.len() > 0 && b.len() > 0 && a[0] == b[0] {
        if a.drop_first() == b.drop_first() {
            assert(a =~= seq![a[0]] + a.drop_first());
            assert(b =~= seq![b[0]] + b.drop_first());
        }
        lemma_lex_total(a.drop_first(), b.drop_first());
    } else if a.len() > 0 && b.len() > 0 {
    } else if a.len() == 0 && b.len() == 0 {
        assert(a =~= b);
    }
}

/// Whether `a` comes strictly before `b`.
pub fn lex_less(a: &[char], b: &[char]) -> (r: bool)
    ensures
        r == lex_lt(a@, b@),
{
    let mut i: usize = 0;
    assert(a@.skip(0) =~= a@ && b@.skip(0) =~= b@);
    while i < a.len() && i < b.len() && a[i] == b[i]
        invariant
            i <= a@.len(),
            i <= b@.len(),
            lex_lt(a@, b@) == lex_lt(a@.skip(i as int), b@.skip(i as int)),
        decreases a.len() - i,
    {
        proof {
            let x = a@.skip(i as int);
            let y = b@.skip(i as int);
            assert(x.drop_first() =~= a@.skip(i + 1));
            assert(y.drop_first() =~= b@.skip(i + 1));
        }
        i += 1;
    }
    let ghost x = a@.skip(i as int);
    let ghost y = b@.skip(i as int);
    if i == a.len() {
        i < b.len()
    } else if i == b.len() {
        false
    } else {
        assert(x[0] == a@[i as int] && y[0] == b@[i as int]);
        a[i] < b[i]
    }
}

/// Paths in ascending order.
pub open spec fn sorted_paths(s: Seq<Seq<char>>) -> bool {
    forall|i: int, j: int| 0 <= i < j < s.len() ==> !lex_lt(#[trigger] s[j], #[trigger] s[i])
}

/// Inserting a path before the first greater one keeps paths in order.
pub proof fn lemma_insert_sorted_paths(s: Seq<Seq<char>>, p: int, x: Seq<char>)
    requires
        sorted_paths(s),
        0 <= p <= s.len(),
        forall|q: int| 0 <= q < p ==> !lex_lt(x, #[trigger] s[q]),
        p < s.len() ==> lex_lt(x, s[p]),
    ensures
        sorted_paths(s.insert(p, x)),
{
    let t = s.insert(p, x);
    assert forall|i: int, j: int| 0 <= i < j < t.len() implies !lex_lt(#[trigger] t[j], #[trigger] t[i]) by {
        if i == p {
            if lex_lt(t[j], x) {
                if j - 1 > p {
                    assert(!lex_lt(s[j - 1], s[p]));
                    lemma_lex_transitive(s[j - 1], x, s[p]);
                } else {
                    lemma_lex_transitive(s[p], x, s[p]);
                    lemma_lex_irreflexive(s[p]);
                }
            }
        } else if j == p {
            assert(!lex_lt(x, s[i]));
        } else if i < p && j > p {
            assert(!lex_lt(s[j - 1], s[i]));
        }
    }
}

/// The first position in `paths` whose path comes after `key`, or the
/// length when there is none: where inserting `key` keeps paths in order
/// and puts it after the paths equal to it.
pub open spec fn first_after(paths: Seq<Seq<char>>, key: Seq<char>) -> int
    decreases paths.len(),
{
    if paths.len() == 0 {
        0
    } else if lex_lt(key, paths[0]) {
        0
    } else {
        1 + first_after(paths.drop_first(), key)
    }
}

/// A position `p` that no earlier path is after, and whose path (if any)
/// is after `key`, is `first_after`.
pub proof fn lemma_first_after_at(paths: Seq<Seq<char>>, key: Seq<char>, p: int)
    requires
        0 <= p <= paths.len(),
        forall|q: int| 0 <= q < p ==> !lex_lt(key, #[trigger] paths[q]),
        p < paths.len() ==> lex_lt(key, paths[p]),
    ensures
        first_after(paths, key) == p,
    decreases paths.len(),
{
    if paths.len() > 0 && p > 0 {
        let rest = paths.drop_first();
        assert(!lex_lt(key, paths[0]));
        assert forall|q: int| 0 <= q < p - 1 implies !lex_lt(key, #[trigger] rest[q]) by {
            assert(rest[q] == paths[q + 1]);
        }
        lemma_first_after_at(rest, key, p - 1);
    }
}

/// The first position in `ids` holding an id greater than `key`, or the
/// length when there is none: where inserting `key` keeps ids in order and
/// puts it after the ids equal to it.
pub open spec fn first_after_id(ids: Seq<i32>, key: i32) -> int
    decreases ids.len(),
{
    if ids.len() == 0 {
        0
    } else if key < ids[0] {
        0
    } else {
        1 + first_after_id(ids.drop_first(), key)
    }
}

/// A position `p` after ids no greater than `key`, whose id (if any) is
/// greater, is `first_after_id`.
pub proof fn lemma_first_after_id_at(ids: Seq<i32>, key: i32, p: int)
    requires
        0 <= p <= ids.len(),
        forall|q: int| 0 <= q < p ==> #[trigger] ids[q] <= key,
        p < ids.len() ==> key < ids[p],
    ensures
        first_after_id(ids, key) == p,
    decreases ids.len(),
{
    if ids.len() > 0 && p > 0 {
        let rest = ids.drop_first();
        assert(ids[0] <= key);
        assert forall|q: int| 0 <= q < p - 1 implies #[trigger] rest[q] <= key by {
            assert(rest[q] == ids[q + 1]);
        }
        lemma_first_after_id_at(rest, key, p - 1);
    }
}

/// `first_after_id` lies within the ids.
pub proof fn lemma_first_after_id_bounds(ids: Seq<i32>, key: i32)
    ensures
        0 <= first_after_id(ids, key) <= ids.len(),
    decreases ids.len(),
{
    if ids.len() > 0 && !(key < ids[0]) {
        lemma_first_after_id_bounds(ids.drop_first(), key);
    }
}

/// Ids before `first_after_id` are not greater than the key.
pub proof fn lemma_first_after_id_before(ids: Seq<i32>, key: i32, q: int)
    requires
        0 <= q < first_after_id(ids, key),
    ensures
        ids[q] <= key,
    decreases ids.len(),
{
    lemma_first_after_id_bounds(ids, key);
    if ids.len() > 0 && !(key < ids[0]) && q > 0 {
        lemma_first_after_id_before(ids.drop_first(), key, q - 1);
        assert(ids.drop_first()[q - 1] == ids[q]);
    }
}

/// The id at `first_after_id`, if any, is greater than the key.
pub proof fn lemma_first_after_id_at_end(ids: Seq<i32>, key: i32)
    requires
        first_after_id(ids, key) < ids.len(),
    ensures
        key < ids[first_after_id(ids, key)],
    decreases ids.len(),
{
    lemma_first_after_id_bounds(ids, key);
    if ids.len() > 0 && !(key < ids[0]) {
        let rest = ids.drop_first();
        lemma_first_after_id_bounds(rest, key);
        lemma_first_after_id_at_end(rest, key);
        assert(rest[first_after_id(rest, key)] == ids[first_after_id(ids, key)]);
    }
}

} // verus!
