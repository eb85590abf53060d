//! Text primitives on `&str`, each stated over the string's characters.
//!
//! The behaviour of each function is the behaviour of the `str` method of std
//! that its doc comment names, written down as a spec function of a few lines.
use vstd::prelude::*;
use vstd::string::*;

verus! {

/// Unicode `White_Space`, the set that `char::is_whitespace` and `str::trim` use.
pub open spec fn is_unicode_whitespace(c: char) -> bool {
    let v = c as u32;
    ||| 9 <= v <= 13
    ||| v == 32
    ||| v == 0x85
    ||| v == 0xA0
    ||| v == 0x1680
    ||| 0x2000 <= v <= 0x200A
    ||| v == 0x2028
    ||| v == 0x2029
    ||| v == 0x202F
    ||| v == 0x205F
    ||| v == 0x3000
}

/// ASCII whitespace as `u8::is_ascii_whitespace` and `str::split_ascii_whitespace` see it.
pub open spec fn is_ascii_whitespace(c: char) -> bool {
    let v = c as u32;
    v == 32 || v == 9 || v == 10 || v == 12 || v == 13
}

pub open spec fn is_ascii_digit(c: char) -> bool {
    '0' <= c <= '9'
}

pub open spec fn digit_value(c: char) -> int {
    (c as u32) - ('0' as u32)
}

/// Index of the first character at or after `i` that is not whitespace (or the length).
pub open spec fn first_non_ws_from(s: Seq<char>, i: int) -> int
    decreases s.len() - i,
{
    if i >= s.len() {
        s.len() as int
    } else if is_unicode_whitespace(s[i]) {
        first_non_ws_from(s, i + 1)
    } else {
        i
    }
}

/// End of the prefix `s[..j]` once its trailing whitespace is removed.
pub open spec fn non_ws_end_before(s: Seq<char>, j: int) -> int
    decreases j,
{
    if j <= 0 {
        0
    } else if is_unicode_whitespace(s[j - 1]) {
        non_ws_end_before(s, j - 1)
    } else {
        j
    }
}

/// `str::trim_start`.
pub open spec fn trim_start_seq(s: Seq<char>) -> Seq<char> {
    s.skip(first_non_ws_from(s, 0))
}

/// `str::trim_end`.
pub open spec fn trim_end_seq(s: Seq<char>) -> Seq<char> {
    s.take(non_ws_end_before(s, s.len() as int))
}

/// `str::trim`.
pub open spec fn trim_seq(s: Seq<char>) -> Seq<char> {
    trim_end_seq(trim_start_seq(s))
}

/// `p` occurs in `s` at index `i`.
pub open spec fn occurs_at(s: Seq<char>, p: Seq<char>, i: int) -> bool {
    0 <= i && i + p.len() <= s.len() && s.subrange(i, i + p.len()) =~= p
}

/// The first index at or after `i` where `p` occurs in `s`.
pub open spec fn find_from(s: Seq<char>, p: Seq<char>, i: int) -> Option<int>
    decreases s.len() - i,
{
    if i < 0 || i + p.len() > s.len() {
        None
    } else if occurs_at(s, p, i) {
        Some(i)
    } else {
        find_from(s, p, i + 1)
    }
}

/// `str::find` with a string pattern, counted in characters.
pub open spec fn find_seq(s: Seq<char>, p: Seq<char>) -> Option<int> {
    find_from(s, p, 0)
}

pub open spec fn starts_with_seq(s: Seq<char>, p: Seq<char>) -> bool {
    p.len() <= s.len() && s.take(p.len() as int) =~= p
}

pub open spec fn ends_with_seq(s: Seq<char>, p: Seq<char>) -> bool {
    p.len() <= s.len() && s.skip(s.len() - p.len()) =~= p
}

/// `str::strip_prefix`.
pub open spec fn strip_prefix_seq(s: Seq<char>, p: Seq<char>) -> Option<Seq<char>> {
    if starts_with_seq(s, p) {
        Some(s.skip(p.len() as int))
    } else {
        None
    }
}

/// `str::strip_suffix`.
pub open spec fn strip_suffix_seq(s: Seq<char>, p: Seq<char>) -> Option<Seq<char>> {
    if ends_with_seq(s, p) {
        Some(s.take(s.len() - p.len()))
    } else {
        None
    }
}

/// `str::split_once`.
pub open spec fn split_once_seq(s: Seq<char>, p: Seq<char>) -> Option<(Seq<char>, Seq<char>)> {
    match find_seq(s, p) {
        Some(i) => Some((s.take(i), s.skip(i + p.len()))),
        None => None,
    }
}

/// The first piece of `str::split`: everything before the first occurrence of `p`.
pub open spec fn before_first_seq(s: Seq<char>, p: Seq<char>) -> Seq<char> {
    match find_seq(s, p) {
        Some(i) => s.take(i),
        None => s,
    }
}

/// The value of a string of decimal digits.
pub open spec fn decimal_value(d: Seq<char>) -> int
    decreases d.len(),
{
    if d.len() == 0 {
        0
    } else {
        decimal_value(d.drop_last()) * 10 + digit_value(d.last())
    }
}

pub open spec fn all_digits(d: Seq<char>) -> bool {
    forall|i: int| 0 <= i < d.len() ==> is_ascii_digit(#[trigger] d[i])
}

/// `FromStr` for an unsigned integer type whose largest value is `max`:
/// an optional `+`, then at least one ASCII digit, and a value that fits.
pub open spec fn parse_unsigned_seq(s: Seq<char>, max: int) -> Option<int> {
    let d = if s.len() > 0 && s[0] == '+' {
        s.drop_first()
    } else {
        s
    };
    if d.len() > 0 && all_digits(d) && decimal_value(d) <= max {
        Some(decimal_value(d))
    } else {
        None
    }
}

pub open spec fn ascii_lower(c: char) -> char {
    if 'A' <= c <= 'Z' {
        ((c as u32) + 32) as char
    } else {
        c
    }
}

/// `str::to_ascii_lowercase`.
pub open spec fn ascii_lower_seq(s: Seq<char>) -> Seq<char> {
    s.map_values(|c: char| ascii_lower(c))
}

pub fn is_whitespace(c: char) -> (r: bool)
    ensures
        r == is_unicode_whitespace(c),
{
    let v = c as u32;
    (9 <= v && v <= 13) || v == 32 || v == 0x85 || v == 0xA0 || v == 0x1680 || (0x2000 <= v && v
        <= 0x200A) || v == 0x2028 || v == 0x2029 || v == 0x202F || v == 0x205F || v == 0x3000
}

pub fn is_ascii_space(c: char) -> (r: bool)
    ensures
        r == is_ascii_whitespace(c),
{
    let v = c as u32;
    v == 32 || v == 9 || v == 10 || v == 12 || v == 13
}

/// The characters of `s`, in order.
pub fn chars_of(s: &str) -> (r: Vec<char>)
    ensures
        r@ == s@,
{
    let mut r: Vec<char> = Vec::new();
    for c in it: s.chars()
        invariant
            r@ == it.seq().take(it.index()),
    {
        r.push(c);
    }
    r
}

/// `&s[from..to]`, counted in characters.
pub fn slice_chars(s: &str, from: usize, to: usize) -> (r: &str)
    requires
        from <= to <= s@.len(),
    ensures
        r@ == s@.subrange(from as int, to as int),
{
    s.substring_char(from, to)
}

/// Whether `p` occurs in `v` at `i`.
pub fn occurs_at_exec(v: &Vec<char>, p: &Vec<char>, i: usize) -> (r: bool)
    ensures
        r == occurs_at(v@, p@, i as int),
{
    if i > v.len() || p.len() > v.len() - i {
        return false;
    }
    let mut k: usize = 0;
    while k < p.len()
        invariant
            i + p.len() <= v.len(),
            k <= p.len(),
            forall|j: int| 0 <= j < k ==> v@[i + j] == p@[j],
        decreases p.len() - k,
    {
        if v[i + k] != p[k] {
            assert(v@.subrange(i as int, i + p.len())[k as int] != p@[k as int]);
            return false;
        }
        k = k + 1;
    }
    assert(v@.subrange(i as int, i + p.len()) =~= p@);
    true
}

/// The first occurrence of `p` in `v`, counted in characters.
pub fn find_chars(v: &Vec<char>, p: &Vec<char>) -> (r: Option<usize>)
    ensures
        r matches Some(i) ==> find_seq(v@, p@) == Some(i as int) && occurs_at(v@, p@, i as int),
        r is None ==> find_seq(v@, p@) is None,
{
    let mut i: usize = 0;
    while i <= v.len()
        invariant
            i <= v.len() + 1,
            find_seq(v@, p@) == find_from(v@, p@, i as int),
        decreases v.len() + 1 - i,
    {
        if p.len() > v.len() - i {
            return None;
        }
        if occurs_at_exec(v, p, i) {
            return Some(i);
        }
        i = i + 1;
    }
    None
}

/// The first occurrence of `p` in `v` at or after `start`.
pub fn find_chars_from(v: &Vec<char>, p: &Vec<char>, start: usize) -> (r: Option<usize>)
    ensures
        r matches Some(i) ==> find_from(v@, p@, start as int) == Some(i as int) && occurs_at(
            v@,
            p@,
            i as int,
        ) && start <= i,
        r is None ==> find_from(v@, p@, start as int) is None,
{
    let mut i: usize = start;
    while i <= v.len()
        invariant
            start <= i,
            i <= v.len() + 1 || i == start,
            find_from(v@, p@, start as int) == find_from(v@, p@, i as int),
        decreases v.len() + 1 - i,
    {
        if p.len() > v.len() - i {
            return None;
        }
        if occurs_at_exec(v, p, i) {
            return Some(i);
        }
        i = i + 1;
    }
    None
}

/// The pieces of `s.split(p)` from `i` on, for a non-empty pattern.
pub open spec fn split_from(s: Seq<char>, p: Seq<char>, i: int) -> Seq<Seq<char>>
    decreases s.len() - i,
{
    if p.len() == 0 || i < 0 || i > s.len() {
        seq![]
    } else {
        match find_from(s, p, i) {
            Some(j) => if j >= i && j + p.len() <= s.len() {
                seq![s.subrange(i, j)] + split_from(s, p, j + p.len())
            } else {
                seq![s.subrange(i, s.len() as int)]
            },
            None => seq![s.subrange(i, s.len() as int)],
        }
    }
}

/// `s.split(p)`, for a non-empty pattern.
pub open spec fn split_seq(s: Seq<char>, p: Seq<char>) -> Seq<Seq<char>> {
    split_from(s, p, 0)
}

pub open spec fn strs_view(v: Seq<&str>) -> Seq<Seq<char>> {
    v.map_values(|x: &str| x@)
}

/// `s.split(p).collect()`, for a non-empty pattern.
pub fn split_pieces<'a>(s: &'a str, p: &str) -> (r: Vec<&'a str>)
    requires
        p@.len() > 0,
    ensures
        strs_view(r@) =~= split_seq(s@, p@),
{
    let v = chars_of(s);
    let q = chars_of(p);
    let mut out: Vec<&'a str> = Vec::new();
    let mut i: usize = 0;
    loop
        invariant
            i <= v@.len(),
            v@ == s@,
            q@ == p@,
            q@.len() > 0,
            split_seq(s@, p@) =~= strs_view(out@) + split_from(s@, p@, i as int),
        decreases v@.len() - i,
    {
        match find_chars_from(&v, &q, i) {
            Some(j) => {
                let piece = slice_chars(s, i, j);
                let ghost before = strs_view(out@);
                out.push(piece);
                assert(strs_view(out@) =~= before.push(piece@));
                i = j + q.len();
            },
            None => {
                let piece = slice_chars(s, i, v.len());
                let ghost before = strs_view(out@);
                out.push(piece);
                assert(strs_view(out@) =~= before.push(piece@));
                return out;
            },
        }
    }
}

/// `s.find(p)` counted in characters.
pub fn find(s: &str, p: &str) -> (r: Option<usize>)
    ensures
        r matches Some(i) ==> find_seq(s@, p@) == Some(i as int) && occurs_at(s@, p@, i as int),
        r is None ==> find_seq(s@, p@) is None,
{
    let v = chars_of(s);
    let q = chars_of(p);
    find_chars(&v, &q)
}

/// `s.contains(p)`.
pub fn contains(s: &str, p: &str) -> (r: bool)
    ensures
        r == (find_seq(s@, p@) is Some),
{
    find(s, p).is_some()
}

/// `s.starts_with(p)`.
pub fn starts_with(s: &str, p: &str) -> (r: bool)
    ensures
        r == starts_with_seq(s@, p@),
{
    let v = chars_of(s);
    let q = chars_of(p);
    let r = occurs_at_exec(&v, &q, 0);
    proof {
        if r {
            assert(v@.take(q@.len() as int) =~= v@.subrange(0, q@.len() as int));
        } else if q@.len() <= v@.len() {
            assert(v@.take(q@.len() as int) =~= v@.subrange(0, q@.len() as int));
        }
    }
    r
}

/// `s.ends_with(p)`.
pub fn ends_with(s: &str, p: &str) -> (r: bool)
    ensures
        r == ends_with_seq(s@, p@),
{
    let v = chars_of(s);
    let q = chars_of(p);
    if q.len() > v.len() {
        return false;
    }
    let r = occurs_at_exec(&v, &q, v.len() - q.len());
    proof {
        assert(v@.skip(v@.len() - q@.len()) =~= v@.subrange(
            v@.len() - q@.len(),
            v@.len() - q@.len() + q@.len(),
        ));
    }
    r
}

/// `s.strip_prefix(p)`.
pub fn strip_prefix<'a>(s: &'a str, p: &str) -> (r: Option<&'a str>)
    ensures
        r matches Some(t) ==> strip_prefix_seq(s@, p@) == Some(t@),
        r is None ==> strip_prefix_seq(s@, p@) is None,
{
    if starts_with(s, p) {
        let n = s.unicode_len();
        let m = p.unicode_len();
        let t = slice_chars(s, m, n);
        assert(t@ =~= s@.skip(p@.len() as int));
        Some(t)
    } else {
        None
    }
}

/// `s.strip_suffix(p)`.
pub fn strip_suffix<'a>(s: &'a str, p: &str) -> (r: Option<&'a str>)
    ensures
        r matches Some(t) ==> strip_suffix_seq(s@, p@) == Some(t@),
        r is None ==> strip_suffix_seq(s@, p@) is None,
{
    if ends_with(s, p) {
        let n = s.unicode_len();
        let m = p.unicode_len();
        let t = slice_chars(s, 0, n - m);
        assert(t@ =~= s@.take(s@.len() - p@.len()));
        Some(t)
    } else {
        None
    }
}

/// `s.split_once(p)`.
pub fn split_once<'a>(s: &'a str, p: &str) -> (r: Option<(&'a str, &'a str)>)
    ensures
        r matches Some(pair) ==> split_once_seq(s@, p@) == Some((pair.0@, pair.1@)),
        r is None ==> split_once_seq(s@, p@) is None,
{
    match find(s, p) {
        Some(i) => {
            let n = s.unicode_len();
            let m = p.unicode_len();
            let a = slice_chars(s, 0, i);
            let b = slice_chars(s, i + m, n);
            assert(a@ =~= s@.take(i as int));
            assert(b@ =~= s@.skip(i + p@.len()));
            Some((a, b))
        },
        None => None,
    }
}

/// `s.split(p).next()`: the text before the first occurrence of `p`, or all of `s`.
pub fn before_first<'a>(s: &'a str, p: &str) -> (r: &'a str)
    ensures
        r@ == before_first_seq(s@, p@),
{
    match find(s, p) {
        Some(i) => {
            let a = slice_chars(s, 0, i);
            assert(a@ =~= s@.take(i as int));
            a
        },
        None => s,
    }
}

/// `s.trim_start()`.
pub fn trim_start(s: &str) -> (r: &str)
    ensures
        r@ == trim_start_seq(s@),
{
    let v = chars_of(s);
    let mut i: usize = 0;
    while i < v.len() && is_whitespace(v[i])
        invariant
            i <= v.len(),
            first_non_ws_from(v@, 0) == first_non_ws_from(v@, i as int),
        decreases v.len() - i,
    {
        i = i + 1;
    }
    let r = slice_chars(s, i, v.len());
    assert(r@ =~= s@.skip(i as int));
    r
}

/// `s.trim_end()`.
pub fn trim_end(s: &str) -> (r: &str)
    ensures
        r@ == trim_end_seq(s@),
{
    let v = chars_of(s);
    let mut j: usize = v.len();
    while j > 0 && is_whitespace(v[j - 1])
        invariant
            j <= v.len(),
            non_ws_end_before(v@, v@.len() as int) == non_ws_end_before(v@, j as int),
        decreases j,
    {
        j = j - 1;
    }
    let r = slice_chars(s, 0, j);
    assert(r@ =~= s@.take(j as int));
    r
}

/// `s.trim()`.
pub fn trim(s: &str) -> (r: &str)
    ensures
        r@ == trim_seq(s@),
{
    trim_end(trim_start(s))
}

/// `s.parse::<T>()` for an unsigned `T` whose largest value is `max`.
pub fn parse_unsigned(s: &str, max: u64) -> (r: Option<u64>)
    ensures
        r matches Some(n) ==> parse_unsigned_seq(s@, max as int) == Some(n as int),
        r is None ==> parse_unsigned_seq(s@, max as int) is None,
{
    let v = chars_of(s);
    let start: usize = if v.len() > 0 && v[0] == '+' {
        1
    } else {
        0
    };
    let ghost d = if v@.len() > 0 && v@[0] == '+' {
        v@.drop_first()
    } else {
        v@
    };
    assert(d =~= v@.skip(start as int));
    if start >= v.len() {
        return None;
    }
    let mut value: u64 = 0;
    let mut i: usize = start;
    while i < v.len()
        invariant
            start <= i <= v.len(),
            v@ == s@,
            start == 1 <==> (v@.len() > 0 && v@[0] == '+'),
            start == 0 || start == 1,
            d =~= v@.skip(start as int),
            d == (if v@.len() > 0 && v@[0] == '+' {
                v@.drop_first()
            } else {
                v@
            }),
            value <= max,
            value == decimal_value(v@.subrange(start as int, i as int)),
            all_digits(v@.subrange(start as int, i as int)),
        decreases v.len() - i,
    {
        let c = v[i];
        proof {
            assert(v@.subrange(start as int, i + 1).drop_last() =~= v@.subrange(
                start as int,
                i as int,
            ));
        }
        if !('0' <= c && c <= '9') {
            proof {
                assert(d[i - start] == c);
                assert(!is_ascii_digit(d[i - start]));
                assert(!all_digits(d));
            }
            return None;
        }
        let digit = (c as u32 - '0' as u32) as u64;
        if digit > max || value > (max - digit) / 10 {
            proof {
                assert(value * 10 + digit > max) by (nonlinear_arith)
                    requires
                        digit > max || value > (max - digit) / 10,
                        value >= 0,
                ;
                assert(d.take((i - start + 1) as int) =~= v@.subrange(start as int, i + 1));
                assert(decimal_value(v@.subrange(start as int, i + 1)) == value * 10 + digit);
                if all_digits(d) {
                    lemma_decimal_prefix_bound(d, (i - start + 1) as int);
                    assert(decimal_value(d) > max);
                }
                assert(parse_unsigned_seq(s@, max as int) is None);
            }
            return None;
        }
        proof {
            assert((max - digit) / 10 * 10 <= max - digit) by (nonlinear_arith)
                requires
                    digit <= max,
            ;
            assert(value * 10 <= (max - digit) / 10 * 10) by (nonlinear_arith)
                requires
                    value <= (max - digit) / 10,
            ;
        }
        value = value * 10 + digit;
        i = i + 1;
        proof {
            assert(all_digits(v@.subrange(start as int, i as int))) by {
                assert forall|k: int| 0 <= k < i - start implies is_ascii_digit(
                    #[trigger] v@.subrange(start as int, i as int)[k],
                ) by {
                    if k < i - 1 - start {
                        assert(v@.subrange(start as int, i as int)[k] == v@.subrange(
                            start as int,
                            i - 1,
                        )[k]);
                    }
                }
            }
        }
    }
    assert(v@.subrange(start as int, v@.len() as int) =~= d);
    Some(value)
}

/// The value of a digit string only grows as digits are appended.
pub proof fn lemma_decimal_prefix_bound(d: Seq<char>, k: int)
    requires
        0 <= k <= d.len(),
        all_digits(d),
    ensures
        decimal_value(d.take(k)) <= decimal_value(d),
        decimal_value(d.take(k)) >= 0,
    decreases d.len(),
{
    lemma_decimal_nonneg(d.take(k));
    lemma_decimal_nonneg(d);
    if k < d.len() {
        let e = d.drop_last();
        assert(all_digits(e)) by {
            assert forall|i: int| 0 <= i < e.len() implies is_ascii_digit(#[trigger] e[i]) by {
                assert(e[i] == d[i]);
            }
        }
        lemma_decimal_prefix_bound(e, k);
        assert(e.take(k) =~= d.take(k));
        lemma_decimal_nonneg(e);
        assert(is_ascii_digit(d[d.len() - 1]));
    } else {
        assert(d.take(k) =~= d);
    }
}

pub proof fn lemma_decimal_nonneg(d: Seq<char>)
    requires
        all_digits(d),
    ensures
        decimal_value(d) >= 0,
    decreases d.len(),
{
    if d.len() > 0 {
        let e = d.drop_last();
        assert(all_digits(e)) by {
            assert forall|i: int| 0 <= i < e.len() implies is_ascii_digit(#[trigger] e[i]) by {
                assert(e[i] == d[i]);
            }
        }
        lemma_decimal_nonneg(e);
        assert(is_ascii_digit(d[d.len() - 1]));
    }
}

/// The first piece of `s.split_ascii_whitespace()`, or `None` when there is none.
pub open spec fn first_ascii_word_seq(s: Seq<char>) -> Option<Seq<char>> {
    let a = first_non_space_from(s, 0);
    if a >= s.len() {
        None
    } else {
        Some(s.subrange(a, first_space_from(s, a)))
    }
}

pub open spec fn first_non_space_from(s: Seq<char>, i: int) -> int
    decreases s.len() - i,
{
    if i >= s.len() {
        s.len() as int
    } else if is_ascii_whitespace(s[i]) {
        first_non_space_from(s, i + 1)
    } else {
        i
    }
}

pub open spec fn first_space_from(s: Seq<char>, i: int) -> int
    decreases s.len() - i,
{
    if i >= s.len() {
        s.len() as int
    } else if is_ascii_whitespace(s[i]) {
        i
    } else {
        first_space_from(s, i + 1)
    }
}

/// `s.split_ascii_whitespace().next()`.
pub fn first_ascii_word(s: &str) -> (r: Option<&str>)
    ensures
        r matches Some(w) ==> first_ascii_word_seq(s@) == Some(w@),
        r is None ==> first_ascii_word_seq(s@) is None,
{
    let v = chars_of(s);
    let mut a: usize = 0;
    while a < v.len() && is_ascii_space(v[a])
        invariant
            a <= v.len(),
            first_non_space_from(v@, 0) == first_non_space_from(v@, a as int),
        decreases v.len() - a,
    {
        a = a + 1;
    }
    if a >= v.len() {
        return None;
    }
    let mut b: usize = a;
    while b < v.len() && !is_ascii_space(v[b])
        invariant
            a <= b <= v.len(),
            first_space_from(v@, a as int) == first_space_from(v@, b as int),
        decreases v.len() - b,
    {
        b = b + 1;
    }
    Some(slice_chars(s, a, b))
}

/// `first_space_from` never moves backwards, and moves past a non-space start.
pub proof fn lemma_first_space_from_bounds(s: Seq<char>, i: int)
    requires
        0 <= i,
    ensures
        i <= first_space_from(s, i) || i > s.len(),
        first_space_from(s, i) <= s.len() || i > s.len(),
        i < s.len() && !is_ascii_whitespace(s[i]) ==> first_space_from(s, i) > i,
        forall|k: int|
            i <= k < first_space_from(s, i) ==> !is_ascii_whitespace(#[trigger] s[k]),
    decreases s.len() - i,
{
    if i < s.len() && !is_ascii_whitespace(s[i]) {
        lemma_first_space_from_bounds(s, i + 1);
    }
}

/// `first_non_space_from` never moves backwards.
pub proof fn lemma_first_non_space_from_bounds(s: Seq<char>, i: int)
    requires
        0 <= i,
    ensures
        i <= first_non_space_from(s, i) || i > s.len(),
        first_non_space_from(s, i) <= s.len() || i > s.len(),
        first_non_space_from(s, i) < s.len() ==> !is_ascii_whitespace(
            s[first_non_space_from(s, i)],
        ),
    decreases s.len() - i,
{
    if i < s.len() && is_ascii_whitespace(s[i]) {
        lemma_first_non_space_from_bounds(s, i + 1);
    }
}

/// The pieces of `s.split_ascii_whitespace()` that start at or after `i`.
pub open spec fn ascii_words_from(s: Seq<char>, i: int) -> Seq<Seq<char>>
    decreases s.len() - i,
{
    if i < 0 || i >= s.len() {
        seq![]
    } else {
        let a = first_non_space_from(s, i);
        if a >= s.len() {
            seq![]
        } else {
            let b = first_space_from(s, a);
            proof {
                lemma_first_non_space_from_bounds(s, i);
                lemma_first_space_from_bounds(s, a);
            }
            seq![s.subrange(a, b)] + ascii_words_from(s, b)
        }
    }
}

/// `s.split_ascii_whitespace()`.
pub open spec fn ascii_words(s: Seq<char>) -> Seq<Seq<char>> {
    ascii_words_from(s, 0)
}

/// The word of `v` that starts at or after `i`, as the bounds `(a, b)` of `v[a..b]`.
pub fn next_ascii_word(v: &Vec<char>, i: usize) -> (r: Option<(usize, usize)>)
    requires
        i <= v@.len(),
    ensures
        r is None ==> ascii_words_from(v@, i as int) =~= Seq::<Seq<char>>::empty(),
        r matches Some((a, b)) ==> {
            &&& i <= a < b <= v@.len()
            &&& ascii_words_from(v@, i as int) =~= seq![v@.subrange(a as int, b as int)]
                + ascii_words_from(v@, b as int)
        },
{
    let mut a: usize = i;
    while a < v.len() && is_ascii_space(v[a])
        invariant
            i <= a <= v.len(),
            first_non_space_from(v@, i as int) == first_non_space_from(v@, a as int),
        decreases v.len() - a,
    {
        a = a + 1;
    }
    if a >= v.len() {
        return None;
    }
    let mut b: usize = a;
    while b < v.len() && !is_ascii_space(v[b])
        invariant
            a <= b <= v.len(),
            first_space_from(v@, a as int) == first_space_from(v@, b as int),
        decreases v.len() - b,
    {
        b = b + 1;
    }
    proof {
        lemma_first_space_from_bounds(v@, a as int);
    }
    Some((a, b))
}

/// `c.to_ascii_lowercase()`.
pub fn to_ascii_lower(c: char) -> (r: char)
    ensures
        r == ascii_lower(c),
{
    if 'A' <= c && c <= 'Z' {
        let v = c as u32 + 32;
        assert(0x61 <= v <= 0x7A);
        char_from_ascii(v)
    } else {
        c
    }
}

/// The character with ASCII code `v`.
pub fn char_from_ascii(v: u32) -> (r: char)
    requires
        v < 128,
    ensures
        r == v as char,
        r as u32 == v,
{
    let b = v as u8;
    b as char
}

/// `s.to_ascii_lowercase()`, as characters.
pub fn lower_chars(s: &str) -> (r: Vec<char>)
    ensures
        r@ == ascii_lower_seq(s@),
{
    let v = chars_of(s);
    let mut r: Vec<char> = Vec::new();
    let mut i: usize = 0;
    while i < v.len()
        invariant
            i <= v.len(),
            r@ =~= ascii_lower_seq(v@.take(i as int)),
        decreases v.len() - i,
    {
        r.push(to_ascii_lower(v[i]));
        i = i + 1;
        assert(ascii_lower_seq(v@.take(i as int)) =~= ascii_lower_seq(v@.take(i - 1)).push(
            ascii_lower(v@[i - 1]),
        ));
    }
    assert(v@.take(v@.len() as int) =~= v@);
    r
}

/// Whether `v` ends with `q`.
pub fn ends_with_chars(v: &Vec<char>, q: &Vec<char>) -> (r: bool)
    ensures
        r == ends_with_seq(v@, q@),
{
    if q.len() > v.len() {
        return false;
    }
    let r = occurs_at_exec(v, q, v.len() - q.len());
    proof {
        assert(v@.skip(v@.len() - q@.len()) =~= v@.subrange(
            v@.len() - q@.len(),
            v@.len() - q@.len() + q@.len(),
        ));
    }
    r
}

/// Whether two character vectors are equal.
pub fn chars_eq(v: &Vec<char>, w: &Vec<char>) -> (r: bool)
    ensures
        r == (v@ == w@),
{
    if v.len() != w.len() {
        return false;
    }
    let r = occurs_at_exec(v, w, 0);
    proof {
        assert(v@.subrange(0, w@.len() as int) =~= v@);
    }
    r
}

/// Whether two strings hold the same characters.
pub fn str_eq(a: &str, b: &str) -> (r: bool)
    ensures
        r == (a@ == b@),
{
    chars_eq(&chars_of(a), &chars_of(b))
}

} // verus!
