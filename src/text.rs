//! Small string and number facts used by the header scanner.

use vstd::prelude::*;

verus! {

/// Value of one digit in the given radix (10 or 16), as `char::to_digit` reads it.
pub open spec fn digit_of(c: char, radix: nat) -> Option<nat> {
    if '0' <= c && c <= '9' && (c as nat) - ('0' as nat) < radix {
        Some(((c as nat) - ('0' as nat)) as nat)
    } else if radix == 16 && 'a' <= c && c <= 'f' {
        Some(((c as nat) - ('a' as nat) + 10) as nat)
    } else if radix == 16 && 'A' <= c && c <= 'F' {
        Some(((c as nat) - ('A' as nat) + 10) as nat)
    } else {
        None
    }
}

/// Value of a sequence of digits, most significant first; `None` if one is not a digit.
pub open spec fn digits_value(s: Seq<char>, radix: nat) -> Option<nat>
    decreases s.len(),
{
    if s.len() == 0 {
        Some(0)
    } else {
        match (digits_value(s.drop_last(), radix), digit_of(s.last(), radix)) {
            (Some(v), Some(d)) => Some(v * radix + d),
            _ => None,
        }
    }
}

/// The number that unsigned `from_str_radix` reads from `s`: an optional `+`, then
/// at least one digit.
pub open spec fn radix_value(s: Seq<char>, radix: nat) -> Option<nat> {
    let d = if s.len() > 0 && s[0] == '+' { s.drop_first() } else { s };
    if d.len() == 0 {
        None
    } else {
        digits_value(d, radix)
    }
}

/// `s` as an unsigned number in `radix` no larger than `max`.
pub open spec fn parse_bounded(s: Seq<char>, radix: nat, max: nat) -> Option<nat> {
    match radix_value(s, radix) {
        Some(v) => if v <= max { Some(v) } else { None },
        None => None,
    }
}

proof fn lemma_digits_monotone(s: Seq<char>, radix: nat, i: int, j: int)
    requires
        0 <= i <= j <= s.len(),
        radix > 0,
    ensures
        digits_value(s.subrange(0, i), radix) is None ==> digits_value(s.subrange(0, j), radix) is None,
        digits_value(s.subrange(0, j), radix) is Some && digits_value(s.subrange(0, i), radix) is Some
            ==> digits_value(s.subrange(0, i), radix)->0 <= digits_value(s.subrange(0, j), radix)->0,
    decreases j - i,
{
    if i < j {
        lemma_digits_monotone(s, radix, i, j - 1);
        assert(s.subrange(0, j).drop_last() =~= s.subrange(0, j - 1));
        let p = digits_value(s.subrange(0, j - 1), radix);
        if p is Some {
            let v = p->0;
            assert(v <= v * radix) by (nonlinear_arith)
                requires radix > 0;
        }
    }
}

fn digit_exec(c: char, radix: u32) -> (r: Option<u32>)
    requires
        radix == 10 || radix == 16,
    ensures
        match r {
            Some(d) => digit_of(c, radix as nat) == Some(d as nat) && d < radix,
            None => digit_of(c, radix as nat) is None,
        },
{
    let n = c as u32;
    if '0' <= c && c <= '9' && n - ('0' as u32) < radix {
        Some(n - ('0' as u32))
    } else if radix == 16 && 'a' <= c && c <= 'f' {
        Some(n - ('a' as u32) + 10)
    } else if radix == 16 && 'A' <= c && c <= 'F' {
        Some(n - ('A' as u32) + 10)
    } else {
        None
    }
}

/// Reads `s` as an unsigned number in radix 10 or 16, no larger than `max`.
pub fn parse_radix(s: &str, radix: u32, max: u32) -> (r: Option<u32>)
    requires
        radix == 10 || radix == 16,
    ensures
        match r {
            Some(v) => parse_bounded(s@, radix as nat, max as nat) == Some(v as nat),
            None => parse_bounded(s@, radix as nat, max as nat) is None,
        },
{
    let n = s.unicode_len();
    let mut start: usize = 0;
    if n > 0 && s.get_char(0) == '+' {
        start = 1;
    }
    if start == n {
        return None;
    }
    let ghost d = if s@.len() > 0 && s@[0] == '+' { s@.drop_first() } else { s@ };
    assert(d =~= s@.subrange(start as int, n as int));
    let mut acc: u64 = 0;
    let mut i: usize = start;
    assert(d.subrange(0, 0) =~= Seq::<char>::empty());
    while i < n
        invariant
            start <= i <= n,
            n == s@.len(),
            d =~= s@.subrange(start as int, n as int),
            d == (if s@.len() > 0 && s@[0] == '+' { s@.drop_first() } else { s@ }),
            d.len() > 0,
            radix == 10 || radix == 16,
            acc <= max,
            digits_value(d.subrange(0, i - start), radix as nat) == Some(acc as nat),
        decreases n - i,
    {
        let c = s.get_char(i);
        let ghost k = (i - start) as int;
        assert(d.subrange(0, k + 1).drop_last() =~= d.subrange(0, k));
        assert(d.subrange(0, k + 1).last() == c);
        match digit_exec(c, radix) {
            None => {
                proof {
                    assert(digits_value(d.subrange(0, k + 1), radix as nat) is None);
                    lemma_digits_monotone(d, radix as nat, k + 1, d.len() as int);
                    assert(d.subrange(0, d.len() as int) =~= d);
                }
                return None;
            },
            Some(dg) => {
                assert(acc * (radix as u64) <= 0xffff_ffff * 16) by (nonlinear_arith)
                    requires acc <= max, max <= 0xffff_ffff, radix <= 16;
                let next: u64 = acc * (radix as u64) + (dg as u64);
                assert(digits_value(d.subrange(0, k + 1), radix as nat) == Some(next as nat));
                if next > max as u64 {
                    proof {
                        lemma_digits_monotone(d, radix as nat, k + 1, d.len() as int);
                        assert(d.subrange(0, d.len() as int) =~= d);
                    }
                    return None;
                }
                acc = next;
            },
        }
        i = i + 1;
    }
    assert(d.subrange(0, n - start) =~= d);
    Some(acc as u32)
}

/// `s` with every leading `0x` removed, as `trim_start_matches("0x")` does.
pub open spec fn strip_hex_prefix(s: Seq<char>) -> Seq<char>
    decreases s.len(),
{
    if s.len() >= 2 && s[0] == '0' && s[1] == 'x' {
        strip_hex_prefix(s.subrange(2, s.len() as int))
    } else {
        s
    }
}

/// Removes every leading `0x` from `s`.
pub fn trim_hex_prefix(s: &str) -> (r: &str)
    ensures
        r@ == strip_hex_prefix(s@),
{
    let n = s.unicode_len();
    let mut i: usize = 0;
    assert(s@.subrange(0, n as int) =~= s@);
    while n >= 2 && i <= n - 2 && s.get_char(i) == '0' && s.get_char(i + 1) == 'x'
        invariant
            i <= n,
            n == s@.len(),
            strip_hex_prefix(s@) == strip_hex_prefix(s@.subrange(i as int, n as int)),
        decreases n - i,
    {
        assert(s@.subrange(i as int, n as int).subrange(2, n - i) =~= s@.subrange(i + 2, n as int));
        i = i + 2;
    }
    s.substring_char(i, n)
}

/// Index of the first `_` in `s`, or its length when there is none.
pub open spec fn underscore_index(s: Seq<char>) -> nat
    decreases s.len(),
{
    if s.len() == 0 || s[0] == '_' {
        0
    } else {
        1 + underscore_index(s.drop_first())
    }
}

/// The part of `s` before its first `_`.
pub open spec fn first_token(s: Seq<char>) -> Seq<char> {
    s.subrange(0, underscore_index(s) as int)
}

proof fn lemma_underscore_index_le(s: Seq<char>)
    ensures
        underscore_index(s) <= s.len(),
    decreases s.len(),
{
    if s.len() > 0 && s[0] != '_' {
        lemma_underscore_index_le(s.drop_first());
    }
}

/// The part of `s` before its first `_`, as `split('_').next()` gives it.
pub fn first_token_of(s: &str) -> (r: &str)
    ensures
        r@ == first_token(s@),
{
    let n = s.unicode_len();
    let mut i: usize = 0;
    proof { lemma_underscore_index_le(s@); }
    assert(s@.subrange(0, n as int) =~= s@);
    while i < n && s.get_char(i) != '_'
        invariant
            i <= n,
            n == s@.len(),
            underscore_index(s@) == i + underscore_index(s@.subrange(i as int, n as int)),
        decreases n - i,
    {
        assert(s@.subrange(i as int, n as int).drop_first() =~= s@.subrange(i + 1, n as int));
        i = i + 1;
    }
    s.substring_char(0, i)
}

/// `s` ends with `(i)`, the mark of an indexed macro.
pub open spec fn is_indexed_name(s: Seq<char>) -> bool {
    s.len() >= 3 && s[s.len() - 3] == '(' && s[s.len() - 2] == 'i' && s[s.len() - 1] == ')'
}

/// Whether `s` ends with `(i)`.
pub fn ends_with_index(s: &str) -> (r: bool)
    ensures
        r == is_indexed_name(s@),
{
    let n = s.unicode_len();
    n >= 3 && s.get_char(n - 3) == '(' && s.get_char(n - 2) == 'i' && s.get_char(n - 1) == ')'
}

/// The characters that `char::is_whitespace` accepts.
pub open spec fn is_space(c: char) -> bool {
    ('\t' <= c && c <= '\r') || c == ' ' || c == '\u{85}' || c == '\u{a0}' || c == '\u{1680}'
        || ('\u{2000}' <= c && c <= '\u{200a}') || c == '\u{2028}' || c == '\u{2029}'
        || c == '\u{202f}' || c == '\u{205f}' || c == '\u{3000}'
}

/// `s` is empty once trimmed.
pub open spec fn is_blank(s: Seq<char>) -> bool {
    forall|i: int| 0 <= i < s.len() ==> is_space(#[trigger] s[i])
}

/// Whether `s` holds only whitespace.
pub fn blank(s: &str) -> (r: bool)
    ensures
        r == is_blank(s@),
{
    let n = s.unicode_len();
    let mut i: usize = 0;
    while i < n
        invariant
            i <= n,
            n == s@.len(),
            forall|j: int| 0 <= j < i ==> is_space(#[trigger] s@[j]),
        decreases n - i,
    {
        let c = s.get_char(i);
        let sp = ('\t' <= c && c <= '\r') || c == ' ' || c == '\u{85}' || c == '\u{a0}'
            || c == '\u{1680}' || ('\u{2000}' <= c && c <= '\u{200a}') || c == '\u{2028}'
            || c == '\u{2029}' || c == '\u{202f}' || c == '\u{205f}' || c == '\u{3000}';
        if !sp {
            return false;
        }
        i = i + 1;
    }
    true
}

/// Number of set bits of `m`.
pub open spec fn popcount(m: nat) -> nat
    decreases m,
{
    if m == 0 {
        0
    } else {
        (m % 2) + popcount(m / 2)
    }
}

proof fn lemma_popcount_le(m: nat)
    ensures
        popcount(m) <= m,
    decreases m,
{
    if m > 0 {
        lemma_popcount_le(m / 2);
    }
}

/// Number of set bits of `m`, as `count_ones` gives it.
pub fn count_ones(m: u32) -> (r: u32)
    ensures
        r as nat == popcount(m as nat),
{
    let mut x: u32 = m;
    let mut c: u32 = 0;
    proof { lemma_popcount_le(m as nat); }
    while x > 0
        invariant
            c as nat + popcount(x as nat) == popcount(m as nat),
            popcount(m as nat) <= m,
        decreases x,
    {
        proof { lemma_popcount_le((x / 2) as nat); }
        c = c + x % 2;
        x = x / 2;
    }
    c
}

/// Lexicographic order on characters, the order of `str`.
pub open spec fn lex_lt(a: Seq<char>, b: Seq<char>) -> bool
    decreases a.len(),
{
    if a.len() == 0 {
        b.len() > 0
    } else if b.len() == 0 {
        false
    } else if a[0] != b[0] {
        a[0] < b[0]
    } else {
        lex_lt(a.drop_first(), b.drop_first())
    }
}

pub proof fn lemma_lex_irreflexive(a: Seq<char>)
    ensures
        !lex_lt(a, a),
    decreases a.len(),
{
    if a.len() > 0 {
        lemma_lex_irreflexive(a.drop_first());
    }
}

pub proof fn lemma_lex_total(a: Seq<char>, b: Seq<char>)
    ensures
        a != b ==> lex_lt(a, b) || lex_lt(b, a),
        lex_lt(a, b) ==> !lex_lt(b, a),
    decreases a.len(),
{
    if a.len() > 0 && b.len() > 0 {
        lemma_lex_total(a.drop_first(), b.drop_first());
        if a[0] == b[0] && a != b {
            assert(a.drop_first() != b.drop_first()) by {
                if a.drop_first() == b.drop_first() {
                    assert(a =~= seq![a[0]] + a.drop_first());
                    assert(b =~= seq![b[0]] + b.drop_first());
                }
            }
        }
    } else if a.len() == 0 && b.len() == 0 {
        assert(a =~= b);
    }
}

pub proof fn lemma_lex_transitive(a: Seq<char>, b: Seq<char>, c: Seq<char>)
    requires
        lex_lt(a, b),
        lex_lt(b, c),
    ensures
        lex_lt(a, c),
    decreases a.len(),
{
    if a.len() > 0 && b.len() > 0 && c.len() > 0 && a[0] == b[0] && b[0] == c[0] {
        lemma_lex_transitive(a.drop_first(), b.drop_first(), c.drop_first());
    }
}

/// Whether `a` comes before `b` in the order of `str`.
pub fn str_lt(a: &str, b: &str) -> (r: bool)
    ensures
        r == lex_lt(a@, b@),
{
    let la = a.unicode_len();
    let lb = b.unicode_len();
    let mut i: usize = 0;
    assert(a@.subrange(0, la as int) =~= a@);
    assert(b@.subrange(0, lb as int) =~= b@);
    while i < la && i < lb
        invariant
            i <= la,
            i <= lb,
            la == a@.len(),
            lb == b@.len(),
            lex_lt(a@, b@) == lex_lt(a@.subrange(i as int, la as int), b@.subrange(i as int, lb as int)),
        decreases la - i,
    {
        let x = a.get_char(i);
        let y = b.get_char(i);
        if x != y {
            return x < y;
        }
        assert(a@.subrange(i as int, la as int).drop_first() =~= a@.subrange(i + 1, la as int));
        assert(b@.subrange(i as int, lb as int).drop_first() =~= b@.subrange(i + 1, lb as int));
        i = i + 1;
    }
    i == la && i < lb
}

/// Whether `s` and `w` hold the same characters.
pub fn str_eq(s: &str, w: &str) -> (r: bool)
    ensures
        r == (s@ == w@),
{
    let n = s.unicode_len();
    if n != w.unicode_len() {
        return false;
    }
    let mut i: usize = 0;
    while i < n
        invariant
            i <= n,
            n == s@.len(),
            n == w@.len(),
            forall|j: int| 0 <= j < i ==> s@[j] == w@[j],
        decreases n - i,
    {
        if s.get_char(i) != w.get_char(i) {
            return false;
        }
        i = i + 1;
    }
    assert(s@ =~= w@);
    true
}

} // verus!
