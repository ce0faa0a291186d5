//! Character-level text utilities shared across the crate: lexicographic
//! ordering of strings (used to keep registry snapshots and interface lists
//! sorted by name) and building strings one character at a time.

use vstd::prelude::*;

verus! {

/// Strict lexicographic order on character sequences, by code point.
pub open spec fn lex_lt(a: Seq<char>, b: Seq<char>) -> bool
    decreases a.len(),
{
    if b.len() == 0 {
        false
    } else if a.len() == 0 {
        true
    } else if a[0] < b[0] {
        true
    } else {
        a[0] == b[0] && lex_lt(a.drop_first(), b.drop_first())
    }
}

pub proof fn lemma_lex_irreflexive(a: Seq<char>)
    ensures
        !lex_lt(a, a),
    decreases a.len(),
{
    if a.len() > 0 {
        lemma_lex_irreflexive(a.drop_first());
    }
}

pub proof fn lemma_lex_connected(a: Seq<char>, b: Seq<char>)
    ensures
        !lex_lt(a, b) && !lex_lt(b, a) ==> a == b,
    decreases a.len(),
{
    if a.len() > 0 && b.len() > 0 && !lex_lt(a, b) && !lex_lt(b, a) {
        assert(a[0] == b[0]);
        lemma_lex_connected(a.drop_first(), b.drop_first());
        assert(a =~= seq![a[0]] + a.drop_first());
        assert(b =~= seq![b[0]] + b.drop_first());
    }
}

pub proof fn lemma_lex_transitive(a: Seq<char>, b: Seq<char>, c: Seq<char>)
    ensures
        lex_lt(a, b) && lex_lt(b, c) ==> lex_lt(a, c),
    decreases a.len(),
{
    if a.len() > 0 && b.len() > 0 && c.len() > 0 {
        lemma_lex_transitive(a.drop_first(), b.drop_first(), c.drop_first());
    }
}

fn str_lt_from(a: &str, b: &str, i: usize, a_len: usize, b_len: usize) -> (r: bool)
    requires
        a_len == a@.len(),
        b_len == b@.len(),
        i <= a_len,
        i <= b_len,
    ensures
        r == lex_lt(a@.skip(i as int), b@.skip(i as int)),
    decreases a_len - i,
{
    proof {
        assert(a@.skip(i as int).len() == a_len - i);
        assert(b@.skip(i as int).len() == b_len - i);
    }
    if i == b_len {
        false
    } else if i == a_len {
        true
    } else {
        let ca = a.get_char(i);
        let cb = b.get_char(i);
        proof {
            assert(a@.skip(i as int)[0] == a@[i as int]);
            assert(b@.skip(i as int)[0] == b@[i as int]);
        }
        if ca < cb {
            true
        } else if cb < ca {
            false
        } else {
            let r = str_lt_from(a, b, i + 1, a_len, b_len);
            proof {
                assert(a@.skip(i as int).drop_first() =~= a@.skip(i + 1));
                assert(b@.skip(i as int).drop_first() =~= b@.skip(i + 1));
            }
            r
        }
    }
}

/// Decides the strict lexicographic order of two strings by code point.
pub fn str_lt(a: &str, b: &str) -> (r: bool)
    ensures
        r == lex_lt(a@, b@),
{
    let a_len = a.unicode_len();
    let b_len = b.unicode_len();
    let r = str_lt_from(a, b, 0, a_len, b_len);
    proof {
        assert(a@.skip(0) =~= a@);
        assert(b@.skip(0) =~= b@);
    }
    r
}

/// Decides equality of two strings through the order: two strings are equal
/// exactly when neither precedes the other.
pub fn str_eq(a: &str, b: &str) -> (r: bool)
    ensures
        r == (a@ == b@),
{
    let lt = str_lt(a, b);
    let gt = str_lt(b, a);
    proof {
        lemma_lex_connected(a@, b@);
        lemma_lex_irreflexive(a@);
        if a@ == b@ {
            assert(!lex_lt(a@, b@) && !lex_lt(b@, a@));
        }
    }
    !lt && !gt
}

/// Relies on `String::push`: appends exactly the given character.
#[verifier::external_body]
pub fn push_char(s: &mut String, c: char)
    ensures
        final(s)@ == old(s)@.push(c),
{
    s.push(c);
}

/// The character for a single decimal digit.
pub open spec fn spec_dec_digit(d: int) -> char {
    if d == 0 { '0' }
    else if d == 1 { '1' }
    else if d == 2 { '2' }
    else if d == 3 { '3' }
    else if d == 4 { '4' }
    else if d == 5 { '5' }
    else if d == 6 { '6' }
    else if d == 7 { '7' }
    else if d == 8 { '8' }
    else { '9' }
}

/// Decimal rendering of a natural number, most significant digit first.
pub open spec fn spec_dec(n: int) -> Seq<char>
    decreases n,
{
    if n < 10 {
        seq![spec_dec_digit(n % 10)]
    } else {
        spec_dec(n / 10).push(spec_dec_digit(n % 10))
    }
}

fn dec_digit(d: u64) -> (c: char)
    requires
        d < 10,
    ensures
        c == spec_dec_digit(d as int),
{
    match d {
        0 => '0',
        1 => '1',
        2 => '2',
        3 => '3',
        4 => '4',
        5 => '5',
        6 => '6',
        7 => '7',
        8 => '8',
        _ => '9',
    }
}

/// Appends the decimal rendering of `n` to `out`.
pub fn push_dec(out: &mut String, n: u64)
    ensures
        final(out)@ == old(out)@ + spec_dec(n as int),
    decreases n,
{
    if n < 10 {
        let c = dec_digit(n);
        push_char(out, c);
        proof {
            assert(old(out)@ + spec_dec(n as int) =~= old(out)@.push(c));
        }
    } else {
        push_dec(out, n / 10);
        let c = dec_digit(n % 10);
        push_char(out, c);
        proof {
            assert(old(out)@ + spec_dec(n as int) =~= (old(out)@ + spec_dec(n as int / 10)).push(
                c,
            ));
        }
    }
}

/// The character for a single lower-case hexadecimal digit.
pub open spec fn spec_hex_digit(d: int) -> char {
    if d == 0 { '0' }
    else if d == 1 { '1' }
    else if d == 2 { '2' }
    else if d == 3 { '3' }
    else if d == 4 { '4' }
    else if d == 5 { '5' }
    else if d == 6 { '6' }
    else if d == 7 { '7' }
    else if d == 8 { '8' }
    else if d == 9 { '9' }
    else if d == 10 { 'a' }
    else if d == 11 { 'b' }
    else if d == 12 { 'c' }
    else if d == 13 { 'd' }
    else if d == 14 { 'e' }
    else { 'f' }
}

pub(crate) fn hex_digit(d: u64) -> (c: char)
    requires
        d < 16,
    ensures
        c == spec_hex_digit(d as int),
{
    match d {
        0 => '0',
        1 => '1',
        2 => '2',
        3 => '3',
        4 => '4',
        5 => '5',
        6 => '6',
        7 => '7',
        8 => '8',
        9 => '9',
        10 => 'a',
        11 => 'b',
        12 => 'c',
        13 => 'd',
        14 => 'e',
        _ => 'f',
    }
}

/// The sixteen-digit lower-case hexadecimal rendering of a 64-bit value,
/// most significant nibble first.
pub open spec fn spec_hex16(n: u64) -> Seq<char> {
    Seq::new(16, |i: int| spec_hex_digit((n >> ((4 * (15 - i)) as u64)) as int % 16))
}

/// Appends the sixteen-digit hexadecimal rendering of `n` to `out`.
pub fn push_hex16(out: &mut String, n: u64)
    ensures
        final(out)@ == old(out)@ + spec_hex16(n),
{
    let mut i: usize = 0;
    while i < 16
        invariant
            i <= 16,
            out@ == old(out)@ + spec_hex16(n).take(i as int),
        decreases 16 - i,
    {
        let shift: u64 = (4 * (15 - i)) as u64;
        let d: u64 = (n >> shift) % 16;
        let c = hex_digit(d);
        push_char(out, c);
        proof {
            assert(spec_hex16(n)[i as int] == c);
            assert(old(out)@ + spec_hex16(n).take(i + 1) =~= (old(out)@ + spec_hex16(n).take(
                i as int,
            )).push(c));
        }
        i = i + 1;
    }
    proof {
        assert(spec_hex16(n).take(16) =~= spec_hex16(n));
    }
}

/// The index of the first occurrence of `c`, or `-1`.
pub open spec fn find_first(p: Seq<char>, c: char) -> int
    decreases p.len(),
{
    if p.len() == 0 {
        -1
    } else if p[0] == c {
        0
    } else {
        let r = find_first(p.drop_first(), c);
        if r == -1 {
            -1
        } else {
            r + 1
        }
    }
}

pub proof fn lemma_find_first_at(p: Seq<char>, c: char, i: int)
    requires
        0 <= i < p.len(),
        p[i] == c,
        forall|j: int| 0 <= j < i ==> p[j] != c,
    ensures
        find_first(p, c) == i,
    decreases i,
{
    if i > 0 {
        lemma_find_first_at(p.drop_first(), c, i - 1);
    }
}

pub proof fn lemma_find_first_none(p: Seq<char>, c: char)
    requires
        forall|j: int| 0 <= j < p.len() ==> p[j] != c,
    ensures
        find_first(p, c) == -1,
    decreases p.len(),
{
    if p.len() > 0 {
        lemma_find_first_none(p.drop_first(), c);
    }
}


/// The index of the last occurrence of `c`, or `-1`.
pub open spec fn find_last(p: Seq<char>, c: char) -> int
    decreases p.len(),
{
    if p.len() == 0 {
        -1
    } else {
        let r = find_last(p.drop_first(), c);
        if r >= 0 {
            r + 1
        } else if p[0] == c {
            0
        } else {
            -1
        }
    }
}

pub proof fn lemma_find_last_none(p: Seq<char>, c: char)
    requires
        forall|j: int| 0 <= j < p.len() ==> p[j] != c,
    ensures
        find_last(p, c) == -1,
    decreases p.len(),
{
    if p.len() > 0 {
        lemma_find_last_none(p.drop_first(), c);
    }
}

pub proof fn lemma_find_last_at(p: Seq<char>, c: char, k: int)
    requires
        0 <= k < p.len(),
        p[k] == c,
        forall|j: int| k < j < p.len() ==> p[j] != c,
    ensures
        find_last(p, c) == k,
    decreases p.len(),
{
    if k == 0 {
        assert forall|j: int| 0 <= j < p.drop_first().len() implies p.drop_first()[j] != c by {
            assert(p.drop_first()[j] == p[j + 1]);
        }
        lemma_find_last_none(p.drop_first(), c);
    } else {
        assert(p.drop_first()[k - 1] == p[k]);
        assert forall|j: int| k - 1 < j < p.drop_first().len() implies p.drop_first()[j] != c by {
            assert(p.drop_first()[j] == p[j + 1]);
        }
        lemma_find_last_at(p.drop_first(), c, k - 1);
    }
}

/// Finds the first occurrence of `c` in `s`.
pub fn ffind_char(s: &str, c: char) -> (r: Option<usize>)
    ensures
        match r {
            Some(k) => k < s@.len() && find_first(s@, c) == k,
            None => find_first(s@, c) == -1,
        },
{
    let n = s.unicode_len();
    let mut i: usize = 0;
    while i < n
        invariant
            n == s@.len(),
            i <= n,
            forall|j: int| 0 <= j < i ==> s@[j] != c,
        decreases n - i,
    {
        if s.get_char(i) == c {
            proof {
                lemma_find_first_at(s@, c, i as int);
            }
            return Some(i);
        }
        i = i + 1;
    }
    proof {
        lemma_find_first_none(s@, c);
    }
    None
}

/// Finds the last occurrence of `c` in `s`.
pub fn rfind_char(s: &str, c: char) -> (r: Option<usize>)
    ensures
        match r {
            Some(k) => k < s@.len() && find_last(s@, c) == k,
            None => find_last(s@, c) == -1,
        },
{
    let n = s.unicode_len();
    let mut found: Option<usize> = None;
    let mut i: usize = 0;
    while i < n
        invariant
            n == s@.len(),
            i <= n,
            match found {
                Some(k) => k < i && s@[k as int] == c && forall|j: int|
                    k < j < i ==> s@[j] != c,
                None => forall|j: int| 0 <= j < i ==> s@[j] != c,
            },
        decreases n - i,
    {
        if s.get_char(i) == c {
            found = Some(i);
        }
        i = i + 1;
    }
    proof {
        match found {
            Some(k) => {
                lemma_find_last_at(s@, c, k as int);
            },
            None => {
                lemma_find_last_none(s@, c);
            },
        }
    }
    found
}

} // verus!
