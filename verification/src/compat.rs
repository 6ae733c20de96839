//! Symbol naming rules of the C/Fortran compatibility bridge, and the
//! descriptors and errors of its routine registry.
use vstd::prelude::*;
use crate::text::{ascii_lower, to_ascii_lower_char, push_char, push_str, push_decimal, decimal, owned};

verus! {

broadcast use vstd::string::group_string_axioms;

/// Source language of a legacy routine.
#[derive(Debug, Clone, Copy, PartialEq, Eq)]
pub enum LegacyLanguage {
    C,
    Fortran,
}

/// Calling convention of a registered routine.
#[derive(Debug, Clone, Copy, PartialEq, Eq)]
pub enum CallingConvention {
    C,
    Fortran,
}

/// What the registry knows of a routine.
#[derive(Debug, Clone, PartialEq, Eq)]
pub struct RoutineSpec {
    pub symbol: String,
    pub convention: CallingConvention,
    pub expected_args: usize,
}

/// The handle a registration hands back.
#[derive(Debug, Clone, PartialEq, Eq)]
pub struct RoutineHandle {
    pub symbol: String,
}

/// Failures of a routine call through the registry.
#[derive(Debug, Clone, PartialEq, Eq)]
pub enum CompatError {
    RoutineNotRegistered { symbol: String },
    InvalidArgumentCount { symbol: String, expected: usize, got: usize },
    InvocationFailed { symbol: String, message: String },
}

/// An ASCII letter or digit.
pub open spec fn is_ascii_alnum(c: char) -> bool {
    ('0' <= c && c <= '9') || ('A' <= c && c <= 'Z') || ('a' <= c && c <= 'z')
}

/// A character kept in a symbol: ASCII letter, digit or underscore.
pub open spec fn is_symbol_char(c: char) -> bool {
    is_ascii_alnum(c) || c == '_'
}

/// `name` reduced to its symbol characters (surrounding white space and
/// trailing NULs are never symbol characters, so they go too).
pub open spec fn sanitized(name: Seq<char>) -> Seq<char> {
    name.filter(|c: char| is_symbol_char(c))
}

/// The Fortran linker name: sanitized, ASCII lower case, ending in `_`.
pub open spec fn fortran_name(name: Seq<char>) -> Seq<char> {
    let s = sanitized(name).map_values(|c: char| ascii_lower(c));
    if s.len() > 0 && s.last() == '_' {
        s
    } else {
        s.push('_')
    }
}

/// The canonical symbol of `name` in `language`.
pub open spec fn canonical_name(name: Seq<char>, language: LegacyLanguage) -> Seq<char> {
    match language {
        LegacyLanguage::C => sanitized(name),
        LegacyLanguage::Fortran => fortran_name(name),
    }
}

/// The module-name character for a path character.
pub open spec fn module_char(c: char) -> char {
    if is_ascii_alnum(c) {
        ascii_lower(c)
    } else {
        '_'
    }
}

fn is_ascii_alnum_exec(c: char) -> (r: bool)
    ensures
        r == is_ascii_alnum(c),
{
    ('0' <= c && c <= '9') || ('A' <= c && c <= 'Z') || ('a' <= c && c <= 'z')
}

fn sanitize_symbol(name: &str) -> (r: String)
    ensures
        r@ == sanitized(name@),
{
    let chars = crate::text::chars_of(name);
    let mut r = String::new();
    let mut i: usize = 0;
    while i < chars.len()
        invariant
            chars@ == name@,
            i <= chars@.len(),
            r@ == chars@.subrange(0, i as int).filter(|c: char| is_symbol_char(c)),
        decreases chars.len() - i,
    {
        let c = chars[i];
        proof {
            reveal_with_fuel(Seq::filter, 1);
            assert(chars@.subrange(0, i + 1).drop_last() =~= chars@.subrange(0, i as int));
        }
        if is_ascii_alnum_exec(c) || c == '_' {
            push_char(&mut r, c);
        }
        i += 1;
    }
    assert(chars@.subrange(0, chars@.len() as int) =~= chars@);
    r
}

/// The Fortran linker symbol for `name`: its letters, digits and underscores,
/// lower-cased, with a trailing `_` added when missing.
pub fn fortran_symbol(name: &str) -> (r: String)
    ensures
        r@ == fortran_name(name@),
{
    let s = sanitize_symbol(name);
    let chars = crate::text::chars_of(s.as_str());
    let mut out = String::new();
    let mut i: usize = 0;
    while i < chars.len()
        invariant
            chars@ == s@,
            i <= chars@.len(),
            out@ == chars@.subrange(0, i as int).map_values(|c: char| ascii_lower(c)),
        decreases chars.len() - i,
    {
        push_char(&mut out, to_ascii_lower_char(chars[i]));
        assert(chars@.subrange(0, i + 1).map_values(|c: char| ascii_lower(c))
            =~= chars@.subrange(0, i as int).map_values(|c: char| ascii_lower(c)).push(ascii_lower(chars@[i as int])));
        i += 1;
    }
    assert(chars@.subrange(0, chars@.len() as int) =~= chars@);
    let n = chars.len();
    if n > 0 && to_ascii_lower_char(chars[n - 1]) == '_' {
        out
    } else {
        push_char(&mut out, '_');
        out
    }
}

/// The canonical symbol of `name`: sanitized for C, the Fortran linker name
/// for Fortran.
pub fn canonical_symbol(name: &str, language: LegacyLanguage) -> (r: String)
    ensures
        r@ == canonical_name(name@, language),
{
    match language {
        LegacyLanguage::C => sanitize_symbol(name),
        LegacyLanguage::Fortran => fortran_symbol(name),
    }
}

/// A Rust module name for a legacy source path: ASCII letters and digits
/// lower-cased, every other character replaced by `_`.
pub fn rust_module_from_legacy_path(path: &str) -> (r: String)
    ensures
        r@ == path@.map_values(|c: char| module_char(c)),
{
    let chars = crate::text::chars_of(path);
    let mut out = String::new();
    let mut i: usize = 0;
    while i < chars.len()
        invariant
            chars@ == path@,
            i <= chars@.len(),
            out@ == chars@.subrange(0, i as int).map_values(|c: char| module_char(c)),
        decreases chars.len() - i,
    {
        let c = chars[i];
        let m = if is_ascii_alnum_exec(c) { to_ascii_lower_char(c) } else { '_' };
        push_char(&mut out, m);
        assert(chars@.subrange(0, i + 1).map_values(|c: char| module_char(c))
            =~= chars@.subrange(0, i as int).map_values(|c: char| module_char(c)).push(module_char(c)));
        i += 1;
    }
    assert(chars@.subrange(0, chars@.len() as int) =~= chars@);
    out
}

impl CompatError {
    /// The human-readable message of the error.
    pub open spec fn message_view(&self) -> Seq<char> {
        match self {
            CompatError::RoutineNotRegistered { symbol } => "routine not registered: "@ + symbol@,
            CompatError::InvalidArgumentCount { symbol, expected, got } => "invalid argument count for "@
                + symbol@ + ": expected "@ + decimal(*expected as nat) + ", got "@ + decimal(*got as nat),
            CompatError::InvocationFailed { symbol, message } => "routine invocation failed for "@
                + symbol@ + ": "@ + message@,
        }
    }

    /// The human-readable message of the error.
    pub fn to_string(&self) -> (r: String)
        ensures
            r@ == self.message_view(),
    {
        match self {
            CompatError::RoutineNotRegistered { symbol } => {
                let mut s = owned("routine not registered: ");
                push_str(&mut s, symbol.as_str());
                s
            },
            CompatError::InvalidArgumentCount { symbol, expected, got } => {
                let mut s = owned("invalid argument count for ");
                push_str(&mut s, symbol.as_str());
                push_str(&mut s, ": expected ");
                push_decimal(&mut s, *expected);
                push_str(&mut s, ", got ");
                push_decimal(&mut s, *got);
                s
            },
            CompatError::InvocationFailed { symbol, message } => {
                let mut s = owned("routine invocation failed for ");
                push_str(&mut s, symbol.as_str());
                push_str(&mut s, ": ");
                push_str(&mut s, message.as_str());
                s
            },
        }
    }
}

proof fn lemma_filter_keeps_all(s: Seq<char>)
    requires
        forall|i: int| 0 <= i < s.len() ==> is_symbol_char(#[trigger] s[i]),
    ensures
        sanitized(s) == s,
    decreases s.len(),
{
    reveal_with_fuel(Seq::filter, 1);
    if s.len() > 0 {
        lemma_filter_keeps_all(s.drop_last());
        assert(s.drop_last().push(s.last()) =~= s);
    }
}

proof fn lemma_sanitized_chars(s: Seq<char>)
    ensures
        forall|i: int| 0 <= i < sanitized(s).len() ==> is_symbol_char(#[trigger] sanitized(s)[i]),
{
    s.filter_lemma(|c: char| is_symbol_char(c));
}

/// The C symbol of a C symbol is itself.
pub proof fn lemma_c_symbol_idempotent(name: Seq<char>)
    ensures
        canonical_name(canonical_name(name, LegacyLanguage::C), LegacyLanguage::C)
            == canonical_name(name, LegacyLanguage::C),
{
    lemma_sanitized_chars(name);
    lemma_filter_keeps_all(sanitized(name));
}

/// The Fortran linker name of a Fortran linker name is itself.
pub proof fn lemma_fortran_symbol_idempotent(name: Seq<char>)
    ensures
        fortran_name(fortran_name(name)) == fortran_name(name),
{
    let s = sanitized(name).map_values(|c: char| ascii_lower(c));
    let f = fortran_name(name);
    lemma_sanitized_chars(name);
    assert forall|i: int| 0 <= i < f.len() implies is_symbol_char(#[trigger] f[i]) && ascii_lower(f[i]) == f[i] by {
        if i < s.len() {
            assert(is_symbol_char(sanitized(name)[i]));
        }
    }
    lemma_filter_keeps_all(f);
    let g = sanitized(f).map_values(|c: char| ascii_lower(c));
    assert(g =~= f);
}

/// Turning a module name into a module name changes nothing.
pub proof fn lemma_module_name_idempotent(path: Seq<char>)
    ensures
        path.map_values(|c: char| module_char(c)).map_values(|c: char| module_char(c))
            == path.map_values(|c: char| module_char(c)),
{
    let m = path.map_values(|c: char| module_char(c));
    assert(m.map_values(|c: char| module_char(c)) =~= m);
}

/// A Fortran linker name ends in `_`, holds only lower-case ASCII letters,
/// digits and `_`, and is its own Fortran linker name.
pub proof fn lemma_fortran_symbol_shape(name: Seq<char>)
    ensures
        fortran_name(name).len() > 0,
        fortran_name(name).last() == '_',
        forall|i: int| 0 <= i < fortran_name(name).len() ==> {
            let c = #[trigger] fortran_name(name)[i];
            ('a' <= c && c <= 'z') || ('0' <= c && c <= '9') || c == '_'
        },
        fortran_name(fortran_name(name)) == fortran_name(name),
{
    let s = sanitized(name).map_values(|c: char| ascii_lower(c));
    let f = fortran_name(name);
    lemma_sanitized_chars(name);
    assert forall|i: int| 0 <= i < f.len() implies {
        let c = #[trigger] f[i];
        ('a' <= c && c <= 'z') || ('0' <= c && c <= '9') || c == '_'
    } by {
        if i < s.len() {
            let c0 = sanitized(name)[i];
            assert(is_symbol_char(c0));
            assert(f[i] == ascii_lower(c0));
            if 'A' <= c0 && c0 <= 'Z' {
                assert(ascii_lower(c0) == ((c0 as u32) + 32) as char);
            }
        }
    }
    lemma_fortran_symbol_idempotent(name);
}

} // verus!
