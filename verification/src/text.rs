//! Character-level text utilities.
//!
//! All executable functions here carry exact functional contracts over
//! `Seq<char>` models, so the parser and the emitter can state their own
//! behaviour precisely.

use vstd::prelude::*;
use vstd::string::*;

verus! {

broadcast use vstd::seq_lib::group_to_multiset_ensures, vstd::seq_lib::to_multiset_insert;

/// Converts a string slice to the vector of its characters.
pub fn str_to_chars(s: &str) -> (r: Vec<char>)
    ensures
        r@ == s@,
{
    let n: usize = s.unicode_len();
    let mut r: Vec<char> = Vec::new();
    let mut i: usize = 0;
    while i < n
        invariant
            n == s@.len(),
            i <= n,
            r@ == s@.take(i as int),
        decreases n - i,
    {
        r.push(s.get_char(i));
        i = i + 1;
        proof {
            assert(s@.take(i as int) =~= s@.take(i - 1).push(s@[i - 1]));
        }
    }
    proof {
        assert(s@.take(n as int) =~= s@);
    }
    r
}

/// Relies on `String::push`: appends exactly the one character.
#[verifier::external_body]
pub(crate) fn push_char(s: &mut String, c: char)
    ensures
        final(s)@ == old(s)@.push(c),
{
    s.push(c);
}

/// Builds a `String` out of a slice of characters.
pub fn chars_to_string(v: &[char]) -> (r: String)
    ensures
        r@ == v@,
{
    let mut r = String::new();
    let mut i: usize = 0;
    while i < v.len()
        invariant
            i <= v@.len(),
            r@ == v@.take(i as int),
        decreases v@.len() - i,
    {
        push_char(&mut r, v[i]);
        i = i + 1;
        proof {
            assert(v@.take(i as int) =~= v@.take(i - 1).push(v@[i - 1]));
        }
    }
    proof {
        assert(v@.take(v@.len() as int) =~= v@);
    }
    r
}

/// The first position at or after `i` where `pat` occurs in `s`, if any.
pub open spec fn find_from(s: Seq<char>, pat: Seq<char>, i: int) -> Option<int>
    decreases s.len() + 1 - i,
{
    if !(0 <= i && i + pat.len() <= s.len()) {
        None
    } else if s.subrange(i, i + pat.len()) == pat {
        Some(i)
    } else {
        find_from(s, pat, i + 1)
    }
}

/// The first position where `pat` occurs in `s`, if any.
pub open spec fn find_in(s: Seq<char>, pat: Seq<char>) -> Option<int> {
    find_from(s, pat, 0)
}

/// A successful find points at an occurrence of the pattern, and at the
/// first one at or after the start position.
pub proof fn lemma_find_from_some(s: Seq<char>, pat: Seq<char>, i: int, j: int)
    requires
        0 <= i,
        find_from(s, pat, i) == Some(j),
    ensures
        i <= j,
        j + pat.len() <= s.len(),
        s.subrange(j, j + pat.len()) == pat,
        forall|k: int| i <= k < j ==> #[trigger] s.subrange(k, k + pat.len()) != pat,
    decreases s.len() + 1 - i,
{
    if i + pat.len() <= s.len() {
        if s.subrange(i, i + pat.len()) == pat {
        } else {
            lemma_find_from_some(s, pat, i + 1, j);
        }
    }
}

/// A failed find means the pattern occurs nowhere at or after the start.
pub proof fn lemma_find_from_none(s: Seq<char>, pat: Seq<char>, i: int)
    requires
        0 <= i,
        find_from(s, pat, i) is None,
    ensures
        forall|k: int| i <= k && k + pat.len() <= s.len() ==> #[trigger] s.subrange(k, k + pat.len())
            != pat,
    decreases s.len() + 1 - i,
{
    if i + pat.len() <= s.len() {
        if s.subrange(i, i + pat.len()) == pat {
        } else {
            lemma_find_from_none(s, pat, i + 1);
        }
    }
}

/// Whether the characters of `s` starting at `i` equal `pat`.
pub fn slice_eq_at(s: &[char], pat: &[char], i: usize) -> (b: bool)
    requires
        i + pat@.len() <= s@.len(),
    ensures
        b == (s@.subrange(i as int, i + pat@.len()) == pat@),
{
    let n: usize = s.len();
    let m: usize = pat.len();
    let mut j: usize = 0;
    while j < m
        invariant
            n == s@.len(),
            m == pat@.len(),
            j <= pat@.len(),
            i + pat@.len() <= s@.len(),
            forall|k: int| 0 <= k < j ==> s@[i + k] == pat@[k],
        decreases pat@.len() - j,
    {
        if s[i + j] != pat[j] {
            proof {
                assert(s@.subrange(i as int, i + pat@.len())[j as int] == s@[i + j]);
            }
            return false;
        }
        j = j + 1;
    }
    proof {
        assert(s@.subrange(i as int, i + pat@.len()) =~= pat@);
    }
    true
}

/// Finds the first occurrence of `pat` in `s`.
pub fn find_sub(s: &[char], pat: &[char]) -> (r: Option<usize>)
    requires
        pat@.len() >= 1,
    ensures
        match r {
            Some(i) => find_in(s@, pat@) == Some(i as int),
            None => find_in(s@, pat@) is None,
        },
{
    if pat.len() > s.len() {
        return None;
    }
    let n: usize = s.len();
    let end: usize = n - pat.len();
    let mut i: usize = 0;
    while i <= end
        invariant
            n == s@.len(),
            1 <= pat@.len() <= s@.len(),
            end == s@.len() - pat@.len(),
            i <= end + 1,
            find_from(s@, pat@, 0) == find_from(s@, pat@, i as int),
        decreases end + 1 - i,
    {
        if slice_eq_at(s, pat, i) {
            return Some(i);
        }
        i = i + 1;
    }
    None
}

/// `s` with every occurrence of `pat` replaced by `val`, scanning left to
/// right and never rescanning replaced text.
pub open spec fn replace_spec(s: Seq<char>, pat: Seq<char>, val: Seq<char>) -> Seq<char>
    decreases s.len(),
    via replace_spec_decreases
{
    if pat.len() == 0 {
        s
    } else {
        match find_in(s, pat) {
            Some(i) => s.subrange(0, i) + val + replace_spec(
                s.subrange(i + pat.len(), s.len() as int),
                pat,
                val,
            ),
            None => s,
        }
    }
}

#[via_fn]
proof fn replace_spec_decreases(s: Seq<char>, pat: Seq<char>, val: Seq<char>) {
    if pat.len() > 0 {
        match find_in(s, pat) {
            Some(i) => lemma_find_from_some(s, pat, 0, i),
            None => {},
        }
    }
}

/// Replaces every occurrence of `pat` in `s` by `val`.
pub fn replace_all(s: &[char], pat: &[char], val: &[char]) -> (r: Vec<char>)
    requires
        pat@.len() >= 1,
    ensures
        r@ == replace_spec(s@, pat@, val@),
    decreases s@.len(),
{
    match find_sub(s, pat) {
        Some(i) => {
            proof {
                lemma_find_from_some(s@, pat@, 0, i as int);
            }
            let n: usize = s.len();
            let mut r: Vec<char> = Vec::new();
            r.extend_from_slice(&s[0..i]);
            r.extend_from_slice(val);
            let rest = replace_all(&s[i + pat.len()..n], pat, val);
            r.extend_from_slice(rest.as_slice());
            proof {
                assert(r@ =~= s@.subrange(0, i as int) + val@ + replace_spec(
                    s@.subrange(i + pat@.len(), s@.len() as int),
                    pat@,
                    val@,
                ));
            }
            r
        },
        None => {
            let mut r: Vec<char> = Vec::new();
            r.extend_from_slice(s);
            proof {
                assert(r@ =~= s@);
            }
            r
        },
    }
}

/// The whitespace characters this crate's lexing recognises.
pub open spec fn is_space_char(c: char) -> bool {
    c == ' ' || c == '\t' || c == '\n' || c == '\r' || c == '\u{b}' || c == '\u{c}'
}

/// Whether `c` is a whitespace character.
pub fn is_space(c: char) -> (b: bool)
    ensures
        b == is_space_char(c),
{
    c == ' ' || c == '\t' || c == '\n' || c == '\r' || c == '\u{b}' || c == '\u{c}'
}

/// `s` without its leading whitespace.
pub open spec fn trim_start_spec(s: Seq<char>) -> Seq<char>
    decreases s.len(),
{
    if s.len() > 0 && is_space_char(s[0]) {
        trim_start_spec(s.drop_first())
    } else {
        s
    }
}

/// `s` without its trailing whitespace.
pub open spec fn trim_end_spec(s: Seq<char>) -> Seq<char>
    decreases s.len(),
{
    if s.len() > 0 && is_space_char(s[s.len() - 1]) {
        trim_end_spec(s.drop_last())
    } else {
        s
    }
}

/// `s` without leading and trailing whitespace.
pub open spec fn trim_spec(s: Seq<char>) -> Seq<char> {
    trim_end_spec(trim_start_spec(s))
}

proof fn lemma_trim_start_skip(s: Seq<char>, a: int)
    requires
        0 <= a <= s.len(),
        forall|k: int| 0 <= k < a ==> is_space_char(s[k]),
    ensures
        trim_start_spec(s) == trim_start_spec(s.subrange(a, s.len() as int)),
    decreases a,
{
    if a > 0 {
        assert(s.drop_first() =~= s.subrange(1, s.len() as int));
        lemma_trim_start_skip(s.subrange(1, s.len() as int), a - 1);
        assert(s.subrange(1, s.len() as int).subrange(a - 1, s.len() - 1) =~= s.subrange(
            a,
            s.len() as int,
        ));
    } else {
        assert(s.subrange(0, s.len() as int) =~= s);
    }
}

proof fn lemma_trim_end_skip(s: Seq<char>, b: int)
    requires
        0 <= b <= s.len(),
        forall|k: int| b <= k < s.len() ==> is_space_char(s[k]),
    ensures
        trim_end_spec(s) == trim_end_spec(s.subrange(0, b)),
    decreases s.len() - b,
{
    if b < s.len() {
        assert(s.drop_last() =~= s.subrange(0, s.len() - 1));
        lemma_trim_end_skip(s.subrange(0, s.len() - 1), b);
        assert(s.subrange(0, s.len() - 1).subrange(0, b) =~= s.subrange(0, b));
    } else {
        assert(s.subrange(0, s.len() as int) =~= s);
    }
}

/// Removes leading and trailing whitespace.
pub fn trim_chars(s: &[char]) -> (r: Vec<char>)
    ensures
        r@ == trim_spec(s@),
{
    let n: usize = s.len();
    let mut a: usize = 0;
    while a < n && is_space(s[a])
        invariant
            n == s@.len(),
            a <= n,
            forall|k: int| 0 <= k < a ==> is_space_char(s@[k]),
        decreases n - a,
    {
        a = a + 1;
    }
    proof {
        lemma_trim_start_skip(s@, a as int);
        if a < n {
            assert(trim_start_spec(s@.subrange(a as int, n as int)) == s@.subrange(
                a as int,
                n as int,
            ));
        }
    }
    let mut b: usize = n;
    while b > a && is_space(s[b - 1])
        invariant
            n == s@.len(),
            a <= b <= n,
            forall|k: int| b <= k < n ==> is_space_char(s@[k]),
        decreases b,
    {
        b = b - 1;
    }
    proof {
        let mid = s@.subrange(a as int, n as int);
        assert(forall|k: int| b - a <= k < mid.len() ==> is_space_char(mid[k]));
        lemma_trim_end_skip(mid, b - a);
        assert(mid.subrange(0, b - a) =~= s@.subrange(a as int, b as int));
        if b > a {
            assert(trim_end_spec(s@.subrange(a as int, b as int)) == s@.subrange(
                a as int,
                b as int,
            ));
        } else {
            assert(s@.subrange(a as int, b as int) =~= Seq::<char>::empty());
        }
    }
    let mut r: Vec<char> = Vec::new();
    r.extend_from_slice(&s[a..b]);
    proof {
        assert(r@ =~= s@.subrange(a as int, b as int));
    }
    r
}

/// A line piece with one trailing carriage return removed.
pub open spec fn strip_cr(s: Seq<char>) -> Seq<char> {
    if s.len() > 0 && s[s.len() - 1] == '\r' {
        s.drop_last()
    } else {
        s
    }
}

/// The lines of `s`: pieces split at `'\n'`, each with a carriage return
/// dropped before the newline, and no empty final piece after a final
/// newline.
pub open spec fn split_lines_spec(s: Seq<char>) -> Seq<Seq<char>>
    decreases s.len(),
    via split_lines_spec_decreases
{
    if s.len() == 0 {
        Seq::empty()
    } else {
        match find_in(s, seq!['\n']) {
            Some(i) => seq![strip_cr(s.subrange(0, i))] + split_lines_spec(
                s.subrange(i + 1, s.len() as int),
            ),
            None => seq![s],
        }
    }
}

#[via_fn]
proof fn split_lines_spec_decreases(s: Seq<char>) {
    if s.len() > 0 {
        match find_in(s, seq!['\n']) {
            Some(i) => lemma_find_from_some(s, seq!['\n'], 0, i),
            None => {},
        }
    }
}

fn strip_cr_exec(mut piece: Vec<char>) -> (r: Vec<char>)
    ensures
        r@ == strip_cr(piece@),
{
    if piece.len() > 0 && piece[piece.len() - 1] == '\r' {
        piece.pop();
    }
    piece
}

/// Splits `s` into its lines.
pub fn split_lines(s: &[char]) -> (r: Vec<Vec<char>>)
    ensures
        r.deep_view() == split_lines_spec(s@),
    decreases s@.len(),
{
    if s.len() == 0 {
        let r: Vec<Vec<char>> = Vec::new();
        proof {
            assert(r.deep_view() =~~= split_lines_spec(s@));
        }
        return r;
    }
    let mut nl: Vec<char> = Vec::new();
    nl.push('\n');
    proof {
        assert(nl@ =~= seq!['\n']);
    }
    match find_sub(s, nl.as_slice()) {
        Some(i) => {
            proof {
                lemma_find_from_some(s@, seq!['\n'], 0, i as int);
            }
            let n: usize = s.len();
            let mut piece: Vec<char> = Vec::new();
            piece.extend_from_slice(&s[0..i]);
            proof {
                assert(piece@ =~= s@.subrange(0, i as int));
            }
            let piece = strip_cr_exec(piece);
            let mut r = split_lines(&s[i + 1..n]);
            r.insert(0, piece);
            proof {
                assert(r.deep_view() =~~= split_lines_spec(s@));
            }
            r
        },
        None => {
            let mut piece: Vec<char> = Vec::new();
            piece.extend_from_slice(s);
            let mut r: Vec<Vec<char>> = Vec::new();
            r.push(piece);
            proof {
                assert(piece@ =~= s@);
                assert(r.deep_view() =~~= seq![s@]);
            }
            r
        },
    }
}

/// Whether `s` begins with `pre`.
pub fn starts_with_chars(s: &[char], pre: &[char]) -> (b: bool)
    ensures
        b == (pre@.len() <= s@.len() && s@.subrange(0, pre@.len() as int) == pre@),
{
    if pre.len() > s.len() {
        false
    } else {
        slice_eq_at(s, pre, 0)
    }
}

/// Whether `s` ends with `suf`.
pub fn ends_with_chars(s: &[char], suf: &[char]) -> (b: bool)
    ensures
        b == (suf@.len() <= s@.len() && s@.subrange(s@.len() - suf@.len(), s@.len() as int)
            == suf@),
{
    if suf.len() > s.len() {
        false
    } else {
        slice_eq_at(s, suf, s.len() - suf.len())
    }
}

/// Whether the character `c` occurs in `s`.
pub fn contains_char(s: &[char], c: char) -> (b: bool)
    ensures
        b == s@.contains(c),
{
    let n: usize = s.len();
    let mut i: usize = 0;
    while i < n
        invariant
            n == s@.len(),
            i <= n,
            forall|k: int| 0 <= k < i ==> s@[k] != c,
        decreases n - i,
    {
        if s[i] == c {
            proof {
                assert(s@[i as int] == c);
            }
            return true;
        }
        i = i + 1;
    }
    false
}

/// Whether `c` is a decimal digit.
pub open spec fn is_digit_char(c: char) -> bool {
    48 <= c as u32 && c as u32 <= 57
}

/// The value of a decimal digit (zero on any other character).
pub open spec fn digit_val(c: char) -> nat {
    if is_digit_char(c) {
        (c as u32 - 48) as nat
    } else {
        0
    }
}

/// The number denoted by a sequence of decimal digits, most significant
/// first.
pub open spec fn digits_to_nat(s: Seq<char>) -> nat
    decreases s.len(),
{
    if s.len() == 0 {
        0
    } else {
        digits_to_nat(s.drop_last()) * 10 + digit_val(s[s.len() - 1])
    }
}

/// Appending further digits never decreases the denoted number.
proof fn lemma_digits_extend(p: Seq<char>, rest: Seq<char>)
    ensures
        digits_to_nat(p + rest) >= digits_to_nat(p),
    decreases rest.len(),
{
    if rest.len() == 0 {
        assert(p + rest =~= p);
    } else {
        let q = p + rest;
        assert(q.drop_last() =~= p + rest.drop_last());
        lemma_digits_extend(p, rest.drop_last());
    }
}

/// `s` with one leading `+` sign removed.
pub open spec fn unsigned_part(s: Seq<char>) -> Seq<char> {
    if s.len() > 0 && s[0] == '+' {
        s.drop_first()
    } else {
        s
    }
}

/// Whether every character of `s` is a decimal digit.
pub open spec fn all_digits(s: Seq<char>) -> bool {
    forall|i: int| 0 <= i < s.len() ==> is_digit_char(s[i])
}

/// The number denoted by `s` read as an optionally `+`-signed decimal
/// numeral, if it is one and fits in a `u32`.
pub open spec fn parse_u32_spec(s: Seq<char>) -> Option<u32> {
    if unsigned_part(s).len() >= 1 && all_digits(unsigned_part(s)) && digits_to_nat(
        unsigned_part(s),
    ) <= u32::MAX {
        Some(digits_to_nat(unsigned_part(s)) as u32)
    } else {
        None
    }
}

/// Parses an optionally `+`-signed decimal numeral.
pub fn parse_u32(s: &[char]) -> (r: Option<u32>)
    ensures
        r == parse_u32_spec(s@),
{
    let n: usize = s.len();
    let start: usize = if n > 0 && s[0] == '+' {
        1
    } else {
        0
    };
    let ghost d = unsigned_part(s@);
    proof {
        assert(d =~= s@.subrange(start as int, n as int));
    }
    if n == start {
        return None;
    }
    let mut acc: u32 = 0;
    let mut i: usize = start;
    while i < n
        invariant
            start <= i <= n,
            n == s@.len(),
            start <= 1,
            d == s@.subrange(start as int, n as int),
            d == unsigned_part(s@),
            forall|k: int| start <= k < i ==> is_digit_char(s@[k]),
            acc == digits_to_nat(s@.subrange(start as int, i as int)),
        decreases n - i,
    {
        let cu: u32 = s[i] as u32;
        if cu < 48 || cu > 57 {
            proof {
                assert(0 <= i - start < d.len());
                assert(d[i - start] == s@[i as int]);
                assert(!is_digit_char(d[i - start]));
                assert(!all_digits(d));
            }
            return None;
        }
        let dg: u32 = cu - 48;
        proof {
            let z = (u32::MAX - dg) as int;
            let q = z / 10;
            vstd::arithmetic::div_mod::lemma_fundamental_div_mod(z, 10);
            vstd::arithmetic::div_mod::lemma_mod_bound(z, 10);
            assert(q * 10 <= z < q * 10 + 10);
            let p1 = s@.subrange(start as int, i + 1);
            assert(p1.drop_last() =~= s@.subrange(start as int, i as int));
            assert(digit_val(s@[i as int]) == dg);
            assert(digits_to_nat(p1) == acc * 10 + dg);
        }
        if acc > (u32::MAX - dg) / 10 {
            proof {
                let z = (u32::MAX - dg) as int;
                let q = z / 10;
                assert(acc >= q + 1);
                assert(acc * 10 >= q * 10 + 10);
                assert(acc * 10 + dg > u32::MAX);
                let p1 = s@.subrange(start as int, i + 1);
                lemma_digits_extend(p1, s@.subrange(i + 1, n as int));
                assert(p1 + s@.subrange(i + 1, n as int) =~= d);
                assert(digits_to_nat(d) > u32::MAX);
            }
            return None;
        }
        proof {
            let z = (u32::MAX - dg) as int;
            let q = z / 10;
            assert(acc <= q);
            assert(acc * 10 <= q * 10);
            assert(acc * 10 + dg <= u32::MAX);
        }
        acc = acc * 10 + dg;
        i = i + 1;
    }
    proof {
        assert(s@.subrange(start as int, n as int) == d);
        assert(forall|k: int| 0 <= k < d.len() ==> d[k] == s@[start + k]);
        assert(all_digits(d));
    }
    Some(acc)
}

/// The character of a decimal digit value.
pub open spec fn digit_char(v: nat) -> char {
    if v == 0 { '0' } else if v == 1 { '1' } else if v == 2 { '2' } else if v == 3 { '3' }
    else if v == 4 { '4' } else if v == 5 { '5' } else if v == 6 { '6' } else if v == 7 { '7' }
    else if v == 8 { '8' } else { '9' }
}

fn digit_char_of(v: u32) -> (c: char)
    requires
        v < 10,
    ensures
        c == digit_char(v as nat),
{
    if v == 0 { '0' } else if v == 1 { '1' } else if v == 2 { '2' } else if v == 3 { '3' }
    else if v == 4 { '4' } else if v == 5 { '5' } else if v == 6 { '6' } else if v == 7 { '7' }
    else if v == 8 { '8' } else { '9' }
}

/// The decimal numeral of `n`, most significant digit first, no sign and
/// no leading zero.
pub open spec fn u32_dec_spec(n: nat) -> Seq<char>
    decreases n,
{
    if n < 10 {
        seq![digit_char(n)]
    } else {
        u32_dec_spec(n / 10).push(digit_char(n % 10))
    }
}

/// Formats `n` as a decimal numeral.
pub fn format_u32(n: u32) -> (r: Vec<char>)
    ensures
        r@ == u32_dec_spec(n as nat),
    decreases n,
{
    if n < 10 {
        let mut r: Vec<char> = Vec::new();
        r.push(digit_char_of(n));
        proof {
            assert(r@ =~= seq![digit_char(n as nat)]);
        }
        r
    } else {
        let mut r = format_u32(n / 10);
        r.push(digit_char_of(n % 10));
        r
    }
}

/// The character of a hexadecimal digit value, lower case.
pub open spec fn hex_digit(v: nat) -> char {
    if v < 10 {
        digit_char(v)
    } else if v == 10 { 'a' } else if v == 11 { 'b' } else if v == 12 { 'c' }
    else if v == 13 { 'd' } else if v == 14 { 'e' } else { 'f' }
}

fn hex_digit_of(v: u8) -> (c: char)
    requires
        v < 16,
    ensures
        c == hex_digit(v as nat),
{
    if v < 10 {
        digit_char_of(v as u32)
    } else if v == 10 { 'a' } else if v == 11 { 'b' } else if v == 12 { 'c' }
    else if v == 13 { 'd' } else if v == 14 { 'e' } else { 'f' }
}

/// The lower-case hexadecimal rendering of a byte string, two digits per
/// byte.
pub open spec fn hex_of(b: Seq<u8>) -> Seq<char>
    decreases b.len(),
{
    if b.len() == 0 {
        Seq::empty()
    } else {
        hex_of(b.drop_last()) + seq![
            hex_digit((b[b.len() - 1] / 16) as nat),
            hex_digit((b[b.len() - 1] % 16) as nat),
        ]
    }
}

/// The hexadecimal rendering is two characters per byte.
pub proof fn lemma_hex_len(b: Seq<u8>)
    ensures
        hex_of(b).len() == 2 * b.len(),
    decreases b.len(),
{
    if b.len() > 0 {
        lemma_hex_len(b.drop_last());
    }
}

/// Renders a byte string in lower-case hexadecimal.
pub fn to_hex(b: &[u8]) -> (r: Vec<char>)
    ensures
        r@ == hex_of(b@),
{
    let n: usize = b.len();
    let mut r: Vec<char> = Vec::new();
    let mut i: usize = 0;
    while i < n
        invariant
            n == b@.len(),
            i <= n,
            r@ == hex_of(b@.take(i as int)),
        decreases n - i,
    {
        let by = b[i];
        r.push(hex_digit_of(by / 16));
        r.push(hex_digit_of(by % 16));
        i = i + 1;
        proof {
            assert(b@.take(i as int).drop_last() =~= b@.take(i - 1));
            assert(b@.take(i as int)[i - 1] == b@[i - 1]);
            assert(r@ =~= hex_of(b@.take(i - 1)) + seq![
                hex_digit((b@[i - 1] / 16) as nat),
                hex_digit((b@[i - 1] % 16) as nat),
            ]);
        }
    }
    proof {
        assert(b@.take(n as int) =~= b@);
    }
    r
}

/// Lexicographic order on character sequences, by code point.
pub open spec fn lex_le(a: Seq<char>, b: Seq<char>) -> bool
    decreases a.len(),
{
    if a.len() == 0 {
        true
    } else if b.len() == 0 {
        false
    } else if (a[0] as u32) < (b[0] as u32) {
        true
    } else if (a[0] as u32) > (b[0] as u32) {
        false
    } else {
        lex_le(a.drop_first(), b.drop_first())
    }
}

/// The lexicographic order is total.
pub proof fn lemma_lex_le_total(a: Seq<char>, b: Seq<char>)
    ensures
        lex_le(a, b) || lex_le(b, a),
    decreases a.len(),
{
    if a.len() > 0 && b.len() > 0 && (a[0] as u32) == (b[0] as u32) {
        lemma_lex_le_total(a.drop_first(), b.drop_first());
    }
}

/// The lexicographic order is transitive.
pub proof fn lemma_lex_le_trans(a: Seq<char>, b: Seq<char>, c: Seq<char>)
    requires
        lex_le(a, b),
        lex_le(b, c),
    ensures
        lex_le(a, c),
    decreases a.len(),
{
    if a.len() > 0 && b.len() > 0 && c.len() > 0 && (a[0] as u32) == (b[0] as u32) && (b[0] as u32)
        == (c[0] as u32) {
        lemma_lex_le_trans(a.drop_first(), b.drop_first(), c.drop_first());
    }
}

/// Compares two character slices in lexicographic order.
pub fn lex_le_chars(a: &[char], b: &[char]) -> (r: bool)
    ensures
        r == lex_le(a@, b@),
    decreases a@.len(),
{
    if a.len() == 0 {
        true
    } else if b.len() == 0 {
        false
    } else if (a[0] as u32) < (b[0] as u32) {
        true
    } else if (a[0] as u32) > (b[0] as u32) {
        false
    } else {
        let an: usize = a.len();
        let bn: usize = b.len();
        let r = lex_le_chars(&a[1..an], &b[1..bn]);
        proof {
            assert(a@.subrange(1, an as int) =~= a@.drop_first());
            assert(b@.subrange(1, bn as int) =~= b@.drop_first());
        }
        r
    }
}

/// Compares two strings in lexicographic order of their characters.
pub fn lex_le_str(a: &str, b: &str) -> (r: bool)
    ensures
        r == lex_le(a@, b@),
{
    let av = str_to_chars(a);
    let bv = str_to_chars(b);
    lex_le_chars(av.as_slice(), bv.as_slice())
}

/// Whether a sequence of character strings is sorted.
pub open spec fn seq_sorted(s: Seq<Seq<char>>) -> bool {
    forall|i: int, j: int| 0 <= i < j < s.len() ==> lex_le(s[i], s[j])
}

/// Inserts `x` into a sorted vector, keeping it sorted.
fn insert_sorted(r: &mut Vec<String>, x: String)
    requires
        seq_sorted(old(r).deep_view()),
    ensures
        seq_sorted(final(r).deep_view()),
        final(r).deep_view().to_multiset() == old(r).deep_view().to_multiset().insert(x@),
{
    let n: usize = r.len();
    let mut idx: usize = 0;
    while idx < n && lex_le_str(r[idx].as_str(), x.as_str())
        invariant
            n == r@.len(),
            idx <= n,
            r@ == old(r)@,
            forall|k: int| 0 <= k < idx ==> lex_le(r.deep_view()[k], x@),
        decreases n - idx,
    {
        idx = idx + 1;
    }
    proof {
        if idx < n {
            assert(r.deep_view()[idx as int] == r@[idx as int]@);
            lemma_lex_le_total(r.deep_view()[idx as int], x@);
            assert forall|k: int| idx <= k < n implies lex_le(x@, r.deep_view()[k]) by {
                if k > idx {
                    assert(lex_le(r.deep_view()[idx as int], r.deep_view()[k]));
                    lemma_lex_le_trans(x@, r.deep_view()[idx as int], r.deep_view()[k]);
                }
            }
        }
    }
    let ghost before = r.deep_view();
    r.insert(idx, x);
    proof {
        assert(r.deep_view() =~~= before.insert(idx as int, x@));
        assert forall|i: int, j: int| 0 <= i < j < r.deep_view().len() implies lex_le(
            r.deep_view()[i],
            r.deep_view()[j],
        ) by {
            let dv = r.deep_view();
            let ii = idx as int;
            if i < ii && j < ii {
                assert(dv[i] == before[i] && dv[j] == before[j]);
            } else if i < ii && j == ii {
                assert(dv[i] == before[i] && dv[j] == x@);
            } else if i < ii && j > ii {
                assert(dv[i] == before[i] && dv[j] == before[j - 1]);
            } else if i == ii {
                assert(dv[i] == x@ && dv[j] == before[j - 1]);
            } else {
                assert(dv[i] == before[i - 1] && dv[j] == before[j - 1]);
            }
        }
    }
}

/// Sorts a vector of strings in lexicographic order; the result holds the
/// same strings with the same multiplicities.
pub fn sort_strings(v: &Vec<String>) -> (r: Vec<String>)
    ensures
        seq_sorted(r.deep_view()),
        r.deep_view().to_multiset() == v.deep_view().to_multiset(),
{
    let n: usize = v.len();
    let mut r: Vec<String> = Vec::new();
    let mut i: usize = 0;
    proof {
        assert(r.deep_view() =~~= Seq::<Seq<char>>::empty());
        assert(v.deep_view().take(0) =~= Seq::<Seq<char>>::empty());
    }
    while i < n
        invariant
            n == v@.len(),
            i <= n,
            seq_sorted(r.deep_view()),
            r.deep_view().to_multiset() == v.deep_view().take(i as int).to_multiset(),
        decreases n - i,
    {
        let x = v[i].clone();
        proof {
            assert(x@ == v.deep_view()[i as int]);
        }
        insert_sorted(&mut r, x);
        i = i + 1;
        proof {
            let dv = v.deep_view();
            assert(dv.take(i as int) =~= dv.take(i - 1).push(dv[i - 1]));
            assert(dv.take(i - 1).push(dv[i - 1]).to_multiset() =~= dv.take(
                i - 1,
            ).to_multiset().insert(dv[i - 1]));
        }
    }
    proof {
        assert(v.deep_view().take(n as int) =~= v.deep_view());
    }
    r
}

/// Whether two character slices hold the same characters.
pub fn chars_eq(a: &[char], b: &[char]) -> (r: bool)
    ensures
        r == (a@ == b@),
{
    if a.len() != b.len() {
        return false;
    }
    let r = slice_eq_at(a, b, 0);
    proof {
        assert(a@.subrange(0, b@.len() as int) =~= a@);
    }
    r
}

/// Whether `s` ends with `suf`.
pub open spec fn ends_with_spec(s: Seq<char>, suf: Seq<char>) -> bool {
    suf.len() <= s.len() && s.subrange(s.len() - suf.len(), s.len() as int) == suf
}

/// Whether `s` begins with `pre`.
pub open spec fn starts_with_spec(s: Seq<char>, pre: Seq<char>) -> bool {
    pre.len() <= s.len() && s.subrange(0, pre.len() as int) == pre
}

/// The pieces joined with single newlines between them.
pub open spec fn join_nl(es: Seq<Seq<char>>) -> Seq<char>
    decreases es.len(),
{
    if es.len() == 0 {
        Seq::empty()
    } else if es.len() == 1 {
        es[0]
    } else {
        join_nl(es.drop_last()) + seq!['\n'] + es.last()
    }
}

/// Joins strings with newlines between them.
pub fn join_lines(es: &Vec<String>) -> (r: Vec<char>)
    ensures
        r@ == join_nl(es.deep_view()),
{
    let n: usize = es.len();
    let mut r: Vec<char> = Vec::new();
    let mut i: usize = 0;
    proof {
        assert(r@ =~= join_nl(es.deep_view().take(0)));
    }
    while i < n
        invariant
            n == es@.len(),
            i <= n,
            r@ == join_nl(es.deep_view().take(i as int)),
        decreases n - i,
    {
        if i > 0 {
            r.push('\n');
        }
        let piece = str_to_chars(es[i].as_str());
        r.extend_from_slice(piece.as_slice());
        i = i + 1;
        proof {
            let dv = es.deep_view();
            assert(dv.take(i as int).drop_last() =~= dv.take(i - 1));
            assert(dv.take(i as int).last() == dv[i - 1]);
            if i == 1 {
                assert(r@ =~= join_nl(dv.take(1)));
            } else {
                assert(r@ =~= join_nl(dv.take(i - 1)) + seq!['\n'] + dv[i - 1]);
            }
        }
    }
    proof {
        assert(es.deep_view().take(n as int) =~= es.deep_view());
    }
    r
}

/// How many times `c` occurs in `s`.
pub open spec fn count_char(s: Seq<char>, c: char) -> int
    decreases s.len(),
{
    if s.len() == 0 {
        0
    } else {
        count_char(s.drop_last(), c) + if s.last() == c {
            1int
        } else {
            0int
        }
    }
}

/// The count of a character is between zero and the length.
pub proof fn lemma_count_char_bounds(s: Seq<char>, c: char)
    ensures
        0 <= count_char(s, c) <= s.len(),
    decreases s.len(),
{
    if s.len() > 0 {
        lemma_count_char_bounds(s.drop_last(), c);
    }
}

/// Counts the occurrences of `c` in `s`.
pub fn count_char_exec(s: &[char], c: char) -> (r: usize)
    ensures
        r as int == count_char(s@, c),
{
    let n: usize = s.len();
    let mut r: usize = 0;
    let mut i: usize = 0;
    proof {
        assert(s@.take(0) =~= Seq::<char>::empty());
    }
    while i < n
        invariant
            n == s@.len(),
            i <= n,
            r <= i,
            r as int == count_char(s@.take(i as int), c),
        decreases n - i,
    {
        if s[i] == c {
            r = r + 1;
        }
        i = i + 1;
        proof {
            assert(s@.take(i as int).drop_last() =~= s@.take(i - 1));
            assert(s@.take(i as int).last() == s@[i - 1]);
        }
    }
    proof {
        assert(s@.take(n as int) =~= s@);
    }
    r
}

/// The total length of a sequence of pieces.
pub open spec fn sum_lens(ls: Seq<Seq<char>>) -> nat
    decreases ls.len(),
{
    if ls.len() == 0 {
        0
    } else {
        sum_lens(ls.drop_last()) + ls.last().len()
    }
}

/// Summing distributes over concatenation.
pub proof fn lemma_sum_lens_concat(a: Seq<Seq<char>>, b: Seq<Seq<char>>)
    ensures
        sum_lens(a + b) == sum_lens(a) + sum_lens(b),
    decreases b.len(),
{
    if b.len() == 0 {
        assert(a + b =~= a);
    } else {
        assert((a + b).drop_last() =~= a + b.drop_last());
        lemma_sum_lens_concat(a, b.drop_last());
    }
}

/// A slice of the pieces weighs no more than the whole.
pub proof fn lemma_sum_lens_subrange(ls: Seq<Seq<char>>, a: int, b: int)
    requires
        0 <= a <= b <= ls.len(),
    ensures
        sum_lens(ls.subrange(a, b)) <= sum_lens(ls),
{
    assert(ls =~= ls.subrange(0, a) + ls.subrange(a, b) + ls.subrange(b, ls.len() as int));
    lemma_sum_lens_concat(ls.subrange(0, a) + ls.subrange(a, b), ls.subrange(b, ls.len() as int));
    lemma_sum_lens_concat(ls.subrange(0, a), ls.subrange(a, b));
}

/// The lines of a text weigh no more than the text.
pub proof fn lemma_split_lines_sum(s: Seq<char>)
    ensures
        sum_lens(split_lines_spec(s)) <= s.len(),
    decreases s.len(),
{
    if s.len() > 0 {
        match find_in(s, seq!['\n']) {
            Some(i) => {
                lemma_find_from_some(s, seq!['\n'], 0, i);
                let head = strip_cr(s.subrange(0, i));
                let rest = s.subrange(i + 1, s.len() as int);
                lemma_split_lines_sum(rest);
                lemma_sum_lens_concat(seq![head], split_lines_spec(rest));
                assert(split_lines_spec(s) =~= seq![head] + split_lines_spec(rest));
                assert(sum_lens(seq![head]) == head.len()) by {
                    assert(seq![head].drop_last() =~= Seq::<Seq<char>>::empty());
                    assert(sum_lens(Seq::<Seq<char>>::empty()) == 0);
                    assert(seq![head].last() == head);
                }
            },
            None => {
                assert(sum_lens(seq![s]) == s.len()) by {
                    assert(seq![s].drop_last() =~= Seq::<Seq<char>>::empty());
                    assert(sum_lens(Seq::<Seq<char>>::empty()) == 0);
                    assert(seq![s].last() == s);
                }
            },
        }
    }
}

/// Formats `n` as a decimal numeral.
pub fn format_usize(n: usize) -> (r: Vec<char>)
    ensures
        r@ == u32_dec_spec(n as nat),
    decreases n,
{
    if n < 10 {
        let mut r: Vec<char> = Vec::new();
        r.push(digit_char_of((n % 10) as u32));
        proof {
            assert(r@ =~= seq![digit_char(n as nat)]);
        }
        r
    } else {
        let mut r = format_usize(n / 10);
        r.push(digit_char_of((n % 10) as u32));
        r
    }
}

/// The pieces joined with `sep` between them.
pub open spec fn join_sep(es: Seq<Seq<char>>, sep: Seq<char>) -> Seq<char>
    decreases es.len(),
{
    if es.len() == 0 {
        Seq::empty()
    } else if es.len() == 1 {
        es[0]
    } else {
        join_sep(es.drop_last(), sep) + sep + es.last()
    }
}

/// Joins strings with a separator between them.
pub fn join_with(es: &Vec<String>, sep: &str) -> (r: Vec<char>)
    ensures
        r@ == join_sep(es.deep_view(), sep@),
{
    let sc = str_to_chars(sep);
    let n: usize = es.len();
    let mut r: Vec<char> = Vec::new();
    let mut i: usize = 0;
    proof {
        assert(r@ =~= join_sep(es.deep_view().take(0), sep@));
    }
    while i < n
        invariant
            n == es@.len(),
            sc@ == sep@,
            i <= n,
            r@ == join_sep(es.deep_view().take(i as int), sep@),
        decreases n - i,
    {
        if i > 0 {
            r.extend_from_slice(sc.as_slice());
        }
        let piece = str_to_chars(es[i].as_str());
        r.extend_from_slice(piece.as_slice());
        i = i + 1;
        proof {
            let dv = es.deep_view();
            assert(dv.take(i as int).drop_last() =~= dv.take(i - 1));
            assert(dv.take(i as int).last() == dv[i - 1]);
            if i == 1 {
                assert(r@ =~= join_sep(dv.take(1), sep@));
            } else {
                assert(r@ =~= join_sep(dv.take(i - 1), sep@) + sep@ + dv[i - 1]);
            }
        }
    }
    proof {
        assert(es.deep_view().take(n as int) =~= es.deep_view());
    }
    r
}

proof fn lemma_find_from_is(s: Seq<char>, pat: Seq<char>, i: int, j: int)
    requires
        0 <= i <= j,
        j + pat.len() <= s.len(),
        s.subrange(j, j + pat.len()) == pat,
        forall|k: int| i <= k < j ==> #[trigger] s.subrange(k, k + pat.len()) != pat,
    ensures
        find_from(s, pat, i) == Some(j),
    decreases j - i,
{
    if i == j {
    } else {
        lemma_find_from_is(s, pat, i + 1, j);
    }
}

/// An occurrence at `j` with none before it is what find returns.
pub proof fn lemma_find_in_is(s: Seq<char>, pat: Seq<char>, j: int)
    requires
        0 <= j,
        j + pat.len() <= s.len(),
        s.subrange(j, j + pat.len()) == pat,
        forall|k: int| 0 <= k < j ==> #[trigger] s.subrange(k, k + pat.len()) != pat,
    ensures
        find_in(s, pat) == Some(j),
{
    lemma_find_from_is(s, pat, 0, j);
}

proof fn lemma_find_from_absent(s: Seq<char>, pat: Seq<char>, i: int)
    requires
        0 <= i,
        forall|k: int|
            0 <= k && k + pat.len() <= s.len() ==> #[trigger] s.subrange(k, k + pat.len()) != pat,
    ensures
        find_from(s, pat, i) is None,
    decreases s.len() + 1 - i,
{
    if i + pat.len() <= s.len() {
        lemma_find_from_absent(s, pat, i + 1);
    }
}

/// A pattern that occurs nowhere is not found.
pub proof fn lemma_find_in_none_of(s: Seq<char>, pat: Seq<char>)
    requires
        forall|k: int|
            0 <= k && k + pat.len() <= s.len() ==> #[trigger] s.subrange(k, k + pat.len()) != pat,
    ensures
        find_in(s, pat) is None,
{
    lemma_find_from_absent(s, pat, 0);
}

/// A pattern whose first character is absent from `s` is not found.
pub proof fn lemma_find_none_no_first_char(s: Seq<char>, pat: Seq<char>)
    requires
        pat.len() >= 1,
        !s.contains(pat[0]),
    ensures
        find_in(s, pat) is None,
{
    assert forall|k: int|
        0 <= k && k + pat.len() <= s.len() implies #[trigger] s.subrange(k, k + pat.len())
        != pat by {
        if s.subrange(k, k + pat.len()) == pat {
            assert(s.subrange(k, k + pat.len())[0] == s[k]);
            assert(s[k] == pat[0]);
            assert(s.contains(pat[0]));
        }
    }
    lemma_find_in_none_of(s, pat);
}

/// A two-character pattern whose characters never stand adjacent in `s`
/// is not found.
pub proof fn lemma_find2_none(s: Seq<char>, c0: char, c1: char)
    requires
        forall|k: int| 0 <= k < s.len() && #[trigger] s[k] == c0 ==> (k + 1 >= s.len() || s[k + 1]
            != c1),
    ensures
        find_in(s, seq![c0, c1]) is None,
{
    let pat = seq![c0, c1];
    assert forall|k: int|
        0 <= k && k + pat.len() <= s.len() implies #[trigger] s.subrange(k, k + pat.len())
        != pat by {
        if s.subrange(k, k + pat.len()) == pat {
            assert(s.subrange(k, k + pat.len())[0] == s[k]);
            assert(s.subrange(k, k + pat.len())[1] == s[k + 1]);
            assert(s[k] == c0 && s[k + 1] == c1);
        }
    }
    lemma_find_in_none_of(s, pat);
}

/// Replacement passes over an unconcerned prefix: when the left part
/// holds no first character of the pattern, it comes through unchanged
/// and replacement happens in the right part alone.
pub proof fn lemma_replace_concat_prefix_free(
    a: Seq<char>,
    b: Seq<char>,
    pat: Seq<char>,
    val: Seq<char>,
)
    requires
        pat.len() >= 1,
        !a.contains(pat[0]),
    ensures
        replace_spec(a + b, pat, val) == a + replace_spec(b, pat, val),
    decreases b.len(),
{
    let s = a + b;
    match find_in(b, pat) {
        Some(i) => {
            lemma_find_from_some(b, pat, 0, i);
            let j = a.len() + i;
            assert(s.subrange(j, j + pat.len()) =~= b.subrange(i, i + pat.len()));
            assert forall|k: int| 0 <= k < j implies #[trigger] s.subrange(k, k + pat.len())
                != pat by {
                if s.subrange(k, k + pat.len()) == pat {
                    if k < a.len() {
                        assert(s.subrange(k, k + pat.len())[0] == s[k]);
                        assert(s[k] == a[k]);
                        assert(a.contains(pat[0]));
                    } else {
                        assert(s.subrange(k, k + pat.len()) =~= b.subrange(
                            k - a.len(),
                            k - a.len() + pat.len(),
                        ));
                        assert(b.subrange(k - a.len(), k - a.len() + pat.len()) != pat);
                    }
                }
            }
            lemma_find_in_is(s, pat, j);
            lemma_replace_concat_prefix_free(
                a,
                b.subrange(i + pat.len(), b.len() as int),
                pat,
                val,
            );
            assert(s.subrange(0, j) =~= a + b.subrange(0, i));
            assert(s.subrange(j + pat.len(), s.len() as int) =~= b.subrange(
                i + pat.len(),
                b.len() as int,
            ));
            assert(replace_spec(s, pat, val) == s.subrange(0, j) + val + replace_spec(
                s.subrange(j + pat.len(), s.len() as int),
                pat,
                val,
            ));
            assert(replace_spec(b, pat, val) == b.subrange(0, i) + val + replace_spec(
                b.subrange(i + pat.len(), b.len() as int),
                pat,
                val,
            ));
            assert(replace_spec(s, pat, val) =~= a + replace_spec(b, pat, val));
        },
        None => {
            lemma_find_from_none(b, pat, 0);
            assert forall|k: int|
                0 <= k && k + pat.len() <= s.len() implies #[trigger] s.subrange(k, k + pat.len())
                != pat by {
                if s.subrange(k, k + pat.len()) == pat {
                    if k < a.len() {
                        assert(s.subrange(k, k + pat.len())[0] == s[k]);
                        assert(s[k] == a[k]);
                        assert(a.contains(pat[0]));
                    } else {
                        assert(s.subrange(k, k + pat.len()) =~= b.subrange(
                            k - a.len(),
                            k - a.len() + pat.len(),
                        ));
                        assert(b.subrange(k - a.len(), k - a.len() + pat.len()) != pat);
                    }
                }
            }
            lemma_find_in_none_of(s, pat);
        },
    }
}

/// Concatenation introduces no character that neither part holds.
pub proof fn lemma_concat_no_char(a: Seq<char>, b: Seq<char>, c: char)
    requires
        !a.contains(c),
        !b.contains(c),
    ensures
        !(a + b).contains(c),
{
    if (a + b).contains(c) {
        let i = choose|i: int| 0 <= i < (a + b).len() && (a + b)[i] == c;
        if i < a.len() {
            assert(a[i] == c);
        } else {
            assert(b[i - a.len()] == c);
        }
    }
}

/// A slice of `s` holds no character `s` does not hold.
pub proof fn lemma_subrange_no_char(s: Seq<char>, c: char, x: int, y: int)
    requires
        !s.contains(c),
        0 <= x <= y <= s.len(),
    ensures
        !s.subrange(x, y).contains(c),
{
    if s.subrange(x, y).contains(c) {
        let i = choose|i: int| 0 <= i < y - x && s.subrange(x, y)[i] == c;
        assert(s[x + i] == c);
    }
}

/// Replacing a single character by a string free of it removes it.
pub proof fn lemma_replace_removes(s: Seq<char>, c: char, val: Seq<char>)
    requires
        !val.contains(c),
    ensures
        !replace_spec(s, seq![c], val).contains(c),
    decreases s.len(),
{
    let pat = seq![c];
    match find_in(s, pat) {
        Some(i) => {
            lemma_find_from_some(s, pat, 0, i);
            let pre = s.subrange(0, i);
            assert(!pre.contains(c)) by {
                if pre.contains(c) {
                    let k = choose|k: int| 0 <= k < i && pre[k] == c;
                    assert(s.subrange(k, k + 1) =~= seq![s[k]]);
                    assert(s.subrange(k, k + 1) == pat);
                }
            }
            lemma_replace_removes(s.subrange(i + 1, s.len() as int), c, val);
            lemma_concat_no_char(pre, val, c);
            lemma_concat_no_char(pre + val, replace_spec(s.subrange(i + 1, s.len() as int), pat, val), c);
            assert(replace_spec(s, pat, val) == pre + val + replace_spec(
                s.subrange(i + 1, s.len() as int),
                pat,
                val,
            ));
        },
        None => {
            lemma_find_from_none(s, pat, 0);
            assert(!s.contains(c)) by {
                if s.contains(c) {
                    let k = choose|k: int| 0 <= k < s.len() && s[k] == c;
                    assert(s.subrange(k, k + 1) =~= seq![s[k]]);
                    assert(s.subrange(k, k + 1) == pat);
                }
            }
        },
    }
}

/// Replacement with a replacement string free of `c` keeps `c` absent.
pub proof fn lemma_replace_keeps_absent(s: Seq<char>, pat: Seq<char>, val: Seq<char>, c: char)
    requires
        pat.len() >= 1,
        !s.contains(c),
        !val.contains(c),
    ensures
        !replace_spec(s, pat, val).contains(c),
    decreases s.len(),
{
    match find_in(s, pat) {
        Some(i) => {
            lemma_find_from_some(s, pat, 0, i);
            lemma_subrange_no_char(s, c, 0, i);
            lemma_subrange_no_char(s, c, i + pat.len() as int, s.len() as int);
            lemma_replace_keeps_absent(s.subrange(i + pat.len(), s.len() as int), pat, val, c);
            lemma_concat_no_char(s.subrange(0, i), val, c);
            lemma_concat_no_char(
                s.subrange(0, i) + val,
                replace_spec(s.subrange(i + pat.len(), s.len() as int), pat, val),
                c,
            );
            assert(replace_spec(s, pat, val) == s.subrange(0, i) + val + replace_spec(
                s.subrange(i + pat.len(), s.len() as int),
                pat,
                val,
            ));
        },
        None => {},
    }
}

} // verus!
