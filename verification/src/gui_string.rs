//! Byte-level string helpers of the graphical pre/post-processor:
//! numeric-token recognition, prefix comparison and substring search.
use vstd::prelude::*;
use vstd::string::StringSliceAdditionalSpecFns;

verus! {

/// Whether byte `i` of `v` may stand in a numeric token: a digit, a point,
/// a plus sign, a minus sign that is not the last byte, or (not at the start)
/// one of the exponent letters `E`, `D`, `e`, `d`.
pub open spec fn number_byte_ok(v: Seq<u8>, i: int) -> bool {
    let b = v[i];
    ||| (48 <= b <= 57)
    ||| b == 46
    ||| b == 43
    ||| (b == 45 && i < v.len() - 1)
    ||| (i > 0 && (b == 69 || b == 68 || b == 101 || b == 100))
}

/// The token is non-empty and each of its bytes may stand in a number.
pub open spec fn is_number_token(v: Seq<u8>) -> bool {
    v.len() > 0 && forall|i: int| 0 <= i < v.len() ==> number_byte_ok(v, i)
}

/// Whether `value` looks like a number in the legacy sense (digits, sign,
/// decimal point, exponent letters).
pub fn check_if_number(value: &str) -> (r: bool)
    ensures
        r == is_number_token(value.spec_bytes()),
{
    let bytes = value.as_bytes();
    let len = bytes.len();
    if len == 0 {
        return false;
    }
    let mut i: usize = 0;
    while i < len
        invariant
            bytes@ == value.spec_bytes(),
            len == bytes@.len(),
            len > 0,
            0 <= i <= len,
            forall|j: int| 0 <= j < i ==> number_byte_ok(bytes@, j),
        decreases len - i,
    {
        let b = bytes[i];
        let is_digit = 48 <= b && b <= 57;
        if !is_digit {
            let allowed_basic = b == 46 || (b == 45 && i < len - 1) || b == 43;
            let allowed_exp = i > 0 && (b == 69 || b == 68 || b == 101 || b == 100);
            if !(allowed_basic || allowed_exp) {
                assert(!number_byte_ok(bytes@, i as int));
                return false;
            }
        }
        i += 1;
    }
    true
}

/// `n` is the length of the longest common prefix of `a` and `b` that does
/// not exceed `limit`.
pub open spec fn is_common_prefix_len(a: Seq<u8>, b: Seq<u8>, limit: int, n: int) -> bool {
    &&& 0 <= n <= limit
    &&& n <= a.len()
    &&& n <= b.len()
    &&& forall|i: int| 0 <= i < n ==> a[i] == b[i]
    &&& (n == limit || n == a.len() || n == b.len() || a[n] != b[n])
}

fn common_prefix(lhs: &[u8], rhs: &[u8], length: usize) -> (n: usize)
    ensures
        is_common_prefix_len(lhs@, rhs@, length as int, n as int),
{
    let mut i: usize = 0;
    while i < length && i < lhs.len() && i < rhs.len() && lhs[i] == rhs[i]
        invariant
            i <= length,
            i <= lhs@.len(),
            i <= rhs@.len(),
            forall|j: int| 0 <= j < i ==> lhs@[j] == rhs@[j],
        decreases length - i,
    {
        i += 1;
    }
    i
}

/// Number of leading bytes on which `str1` and `str2` agree, looking at no
/// more than `length` bytes.
pub fn compare_prefix(str1: &str, str2: &str, length: usize) -> (n: usize)
    ensures
        is_common_prefix_len(str1.spec_bytes(), str2.spec_bytes(), length as int, n as int),
{
    common_prefix(str1.as_bytes(), str2.as_bytes(), length)
}

/// The legacy comparison result: `-1` when the byte lengths differ, the
/// length (as `i32`) when the strings are equal, and `0` otherwise.
pub open spec fn compare_strings_result(a: Seq<u8>, b: Seq<u8>) -> i32 {
    if a.len() != b.len() {
        -1i32
    } else if a == b {
        a.len() as i32
    } else {
        0
    }
}

/// Compares two strings the way the legacy `compareStrings` routine does.
pub fn compare_strings(str1: &str, str2: &str) -> (r: i32)
    ensures
        r == compare_strings_result(str1.spec_bytes(), str2.spec_bytes()),
{
    let a = str1.as_bytes();
    let b = str2.as_bytes();
    let length = a.len();
    if b.len() != length {
        return -1;
    }
    let n = common_prefix(a, b, length);
    if n == length {
        assert(a@ =~= b@);
        let r: i32 = #[verifier::truncate] (length as i32);
        r
    } else {
        assert(a@ != b@) by {
            assert(a@[n as int] != b@[n as int]);
        }
        0
    }
}

/// `needle` occurs in `hay` at byte offset `i`.
pub open spec fn occurs_at(hay: Seq<u8>, needle: Seq<u8>, i: int) -> bool {
    0 <= i && i + needle.len() <= hay.len() && hay.subrange(i, i + needle.len()) == needle
}

/// The legacy substring search result: `-1` for an empty needle or when the
/// needle does not occur, else the first byte offset of an occurrence (as `i32`).
pub open spec fn strfind_result(hay: Seq<u8>, needle: Seq<u8>) -> i32 {
    if needle.len() == 0 || !(exists|i: int| occurs_at(hay, needle, i)) {
        -1i32
    } else {
        (choose|i: int| occurs_at(hay, needle, i) && forall|j: int| 0 <= j < i ==> !occurs_at(hay, needle, j)) as i32
    }
}

/// Byte offset of the first occurrence of `as2` in `as1`, or `-1`.
pub fn strfind(as1: &str, as2: &str) -> (r: i32)
    ensures
        r == strfind_result(as1.spec_bytes(), as2.spec_bytes()),
{
    let needle = as2.as_bytes();
    if needle.len() == 0 {
        return -1;
    }
    let hay = as1.as_bytes();
    let length_as2 = needle.len();
    let needle_first = needle[0];
    let mut i: usize = 0;
    while i < hay.len()
        invariant
            hay@ == as1.spec_bytes(),
            needle@ == as2.spec_bytes(),
            length_as2 == needle@.len(),
            length_as2 > 0,
            needle_first == needle@[0],
            i <= hay@.len(),
            forall|j: int| 0 <= j < i ==> !occurs_at(hay@, needle@, j),
        decreases hay.len() - i,
    {
        if hay[i] == needle_first {
            let n = common_prefix(vstd::slice::slice_subrange(hay, i, hay.len()), needle, length_as2);
            if n == length_as2 {
                assert(hay@.subrange(i as int, i + needle@.len()) =~= needle@) by {
                    assert forall|k: int| 0 <= k < needle@.len() implies hay@[i + k] == needle@[k] by {
                        assert(hay@.subrange(i as int, hay@.len() as int)[k] == hay@[i + k]);
                    }
                }
                assert(occurs_at(hay@, needle@, i as int));
                let ghost w = choose|k: int| occurs_at(hay@, needle@, k) && forall|j: int| 0 <= j < k ==> !occurs_at(hay@, needle@, j);
                assert(w == i) by {
                    if w < i {
                    } else if w > i {
                    }
                }
                let r: i32 = #[verifier::truncate] (i as i32);
                return r;
            } else {
                let ghost rest = hay@.subrange(i as int, hay@.len() as int);
                assert(!occurs_at(hay@, needle@, i as int)) by {
                    if occurs_at(hay@, needle@, i as int) {
                        if n < hay@.len() - i {
                            assert(rest[n as int] == hay@[i + n]);
                            assert(hay@.subrange(i as int, i + needle@.len())[n as int] == hay@[i + n]);
                        }
                    }
                }
            }
        } else {
            assert(!occurs_at(hay@, needle@, i as int)) by {
                if occurs_at(hay@, needle@, i as int) {
                    assert(hay@.subrange(i as int, i + needle@.len())[0] == hay@[i as int]);
                }
            }
        }
        i += 1;
    }
    assert(!(exists|k: int| occurs_at(hay@, needle@, k))) by {
        assert forall|k: int| !occurs_at(hay@, needle@, k) by {
            if 0 <= k && k < hay@.len() {
            }
        }
    }
    -1
}

} // verus!
