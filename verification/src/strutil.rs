//! Verified character-level string utilities: conversion between `String`
//! and `Vec<char>`, lexicographic comparison, prefix tests, truncation, and
//! decimal rendering of integers.

use vstd::prelude::*;
use vstd::std_specs::iter::IteratorSpec;
use vstd::string::StringExecFns;

verus! {

broadcast use vstd::string::next_postcondition, vstd::string::axiom_spec_iter;

use crate::json::lex_lt;
use crate::json::lex_lt_from;

/// Relies on `String::push`: appends one character.
#[verifier::external_body]
pub fn push_char(s: &mut String, c: char)
    ensures
        final (s)@ == old(s)@.push(c),
{
    s.push(c);
}

/// The characters of a string, as a vector.
pub fn chars_of(s: &str) -> (v: Vec<char>)
    ensures
        v@ == s@,
{
    let mut v: Vec<char> = Vec::new();
    let mut it = s.chars();
    loop
        invariant
            it.obeys_prophetic_iter_laws(),
            it.decrease() is Some,
            v@ + it.remaining() == s@,
        ensures
            it.remaining().len() == 0,
        decreases it.decrease()->0,
    {
        match it.next() {
            Some(c) => {
                v.push(c);
                proof {
                    assert(v@ + it.remaining() =~= s@);
                }
            },
            None => {
                break ;
            },
        }
    }
    proof {
        assert(v@ =~= s@);
    }
    v
}

/// Decides equality of two character vectors.
#[verifier::loop_isolation(false)]
pub fn chars_eq(a: &Vec<char>, b: &Vec<char>) -> (r: bool)
    ensures
        r == (a@ == b@),
{
    if a.len() != b.len() {
        return false;
    }
    let mut i: usize = 0;
    while i < a.len()
        invariant
            0 <= i <= a@.len(),
            a@.len() == b@.len(),
            forall|j: int| 0 <= j < i ==> a@[j] == b@[j],
        decreases a@.len() - i,
    {
        if a[i] != b[i] {
            return false;
        }
        i += 1;
    }
    proof {
        assert(a@ =~= b@);
    }
    true
}

/// Decides equality of two strings.
pub fn str_eq(a: &str, b: &str) -> (r: bool)
    ensures
        r == (a@ == b@),
{
    let av = chars_of(a);
    let bv = chars_of(b);
    chars_eq(&av, &bv)
}

/// Decides the strict lexicographic order `lex_lt` on two strings.
pub fn str_lt(a: &str, b: &str) -> (r: bool)
    ensures
        r == lex_lt(a@, b@),
{
    let av = chars_of(a);
    let bv = chars_of(b);
    let mut i: usize = 0;
    loop
        invariant
            0 <= i <= av@.len(),
            i <= bv@.len(),
            av@ == a@,
            bv@ == b@,
            lex_lt(a@, b@) == lex_lt_from(a@, b@, i as int),
        ensures
            lex_lt(a@, b@) == lex_lt_from(a@, b@, i as int),
            i >= av@.len() || i >= bv@.len() || av@[i as int] != bv@[i as int],
        decreases av@.len() - i,
    {
        if i >= bv.len() {
            break ;
        }
        if i >= av.len() {
            break ;
        }
        let ca = av[i];
        let cb = bv[i];
        if ca != cb {
            break ;
        }
        i += 1;
    }
    if i >= bv.len() {
        false
    } else if i >= av.len() {
        true
    } else {
        (av[i] as u32) < (bv[i] as u32)
    }
}

/// Whether `p` is a prefix of `s`.
pub open spec fn is_prefix(p: Seq<char>, s: Seq<char>) -> bool {
    p.len() <= s.len() && p == s.take(p.len() as int)
}

/// Decides whether `p` is a prefix of `s`.
#[verifier::loop_isolation(false)]
pub fn str_starts_with(s: &str, p: &str) -> (r: bool)
    ensures
        r == is_prefix(p@, s@),
{
    let sv = chars_of(s);
    let pv = chars_of(p);
    if pv.len() > sv.len() {
        return false;
    }
    let mut i: usize = 0;
    while i < pv.len()
        invariant
            0 <= i <= pv@.len(),
            pv@.len() <= sv@.len(),
            sv@ == s@,
            pv@ == p@,
            forall|j: int| 0 <= j < i ==> p@[j] == s@[j],
        decreases pv@.len() - i,
    {
        if pv[i] != sv[i] {
            assert(p@[i as int] != s@.take(p@.len() as int)[i as int]);
            return false;
        }
        i += 1;
    }
    proof {
        assert(p@ =~= s@.take(p@.len() as int));
    }
    true
}

/// The first `n` characters of `s`, or all of `s` if it is shorter.
pub fn take_chars(s: &str, n: usize) -> (r: String)
    ensures
        r@ == if s@.len() <= n {
            s@
        } else {
            s@.take(n as int)
        },
{
    let v = chars_of(s);
    let mut r = String::new();
    let mut i: usize = 0;
    let end: usize = if v.len() <= n {
        v.len()
    } else {
        n
    };
    while i < end
        invariant
            0 <= i <= end <= v@.len(),
            end == if v@.len() <= n {
                v@.len() as int
            } else {
                n as int
            },
            v@ == s@,
            r@ == v@.take(i as int),
        decreases end - i,
    {
        push_char(&mut r, v[i]);
        i += 1;
        proof {
            assert(r@ =~= v@.take(i as int));
        }
    }
    proof {
        assert(v@.take(v@.len() as int) =~= v@);
    }
    r
}

/// The decimal digit character for `d`.
pub open spec fn dec_digit(d: int) -> char {
    ((48 + d) as u8) as char
}

/// The decimal rendering of a natural number.
pub open spec fn dec_str(n: nat) -> Seq<char>
    decreases n,
{
    if n < 10 {
        seq![dec_digit(n as int)]
    } else {
        dec_str(n / 10).push(dec_digit((n % 10) as int))
    }
}

/// Renders a number in decimal.
pub fn u64_to_string(n: u64) -> (s: String)
    ensures
        s@ == dec_str(n as nat),
    decreases n,
{
    let d: u8 = 48 + (n % 10) as u8;
    let c: char = d as char;
    if n < 10 {
        let mut s = String::new();
        push_char(&mut s, c);
        proof {
            assert(s@ =~= dec_str(n as nat));
        }
        s
    } else {
        let mut s = u64_to_string(n / 10);
        push_char(&mut s, c);
        s
    }
}

/// Renders a `usize` in decimal.
pub fn usize_to_string(n: usize) -> (s: String)
    ensures
        s@ == dec_str(n as nat),
{
    u64_to_string(n as u64)
}

/// Renders a `u16` in decimal.
pub fn u16_to_string(n: u16) -> (s: String)
    ensures
        s@ == dec_str(n as nat),
{
    u64_to_string(n as u64)
}

} // verus!
