//! Small verified helpers over characters and strings: the UTF-8 width of a
//! character, conversion of a `&str` into its characters, and character-wise
//! string comparison.

use vstd::prelude::*;
use vstd::string::StrSliceExecFns;

verus! {

/// Width in bytes of the UTF-8 encoding of a character, determined by its
/// scalar value.
pub open spec fn largo_utf8_de(c: char) -> nat {
    if (c as u32) < 0x80 {
        1
    } else if (c as u32) < 0x800 {
        2
    } else if (c as u32) < 0x10000 {
        3
    } else {
        4
    }
}

/// Computes the width in bytes of the UTF-8 encoding of a character.
pub fn largo_utf8(c: char) -> (r: usize)
    ensures
        r == largo_utf8_de(c),
{
    let u = c as u32;
    if u < 0x80 {
        1
    } else if u < 0x800 {
        2
    } else if u < 0x10000 {
        3
    } else {
        4
    }
}

/// Collects the characters of a string slice into a vector.
pub fn a_caracteres(s: &str) -> (r: Vec<char>)
    ensures
        r@ == s@,
{
    let n = s.unicode_len();
    let mut r: Vec<char> = Vec::new();
    let mut i: usize = 0;
    while i < n
        invariant
            n == s@.len(),
            i <= n,
            r@ == s@.subrange(0, i as int),
        decreases n - i,
    {
        r.push(s.get_char(i));
        i = i + 1;
        assert(r@ =~= s@.subrange(0, i as int));
    }
    assert(r@ =~= s@);
    r
}

/// Compares two string slices character by character.
pub fn cadenas_iguales(a: &str, b: &str) -> (r: bool)
    ensures
        r == (a@ == b@),
{
    let la = a.unicode_len();
    let lb = b.unicode_len();
    if la != lb {
        return false;
    }
    let mut i: usize = 0;
    while i < la
        invariant
            la == a@.len(),
            la == b@.len(),
            i <= la,
            forall|j: int| 0 <= j < i ==> a@[j] == b@[j],
        decreases la - i,
    {
        if a.get_char(i) != b.get_char(i) {
            return false;
        }
        i = i + 1;
    }
    assert(a@ =~= b@);
    true
}

/// Copies a character.  Binding a character that was read out of a vector
/// or a sequence through this function gives the verifier a handle on which
/// structured values built from it can be reasoned about.
pub fn copia_caracter(c: char) -> (r: char)
    ensures
        r == c,
{
    c
}

/// Names a character of a sequence.  As with [`copia_caracter`], the bound
/// result gives the verifier a handle for structured values built from it.
pub proof fn caracter_de(s: Seq<char>, i: int) -> (r: char)
    requires
        0 <= i < s.len(),
    ensures
        r == s[i],
{
    s[i]
}

/// Compares a vector of characters with a string slice, character by
/// character.
pub fn caracteres_igual_a_cadena(v: &Vec<char>, s: &str) -> (r: bool)
    ensures
        r == (v@ == s@),
{
    let n = s.unicode_len();
    if v.len() != n {
        return false;
    }
    let mut i: usize = 0;
    while i < n
        invariant
            n == s@.len(),
            n == v@.len(),
            i <= n,
            forall|j: int| 0 <= j < i ==> v@[j] == s@[j],
        decreases n - i,
    {
        if v[i] != s.get_char(i) {
            return false;
        }
        i = i + 1;
    }
    assert(v@ =~= s@);
    true
}

} // verus!
