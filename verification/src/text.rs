//! Text helpers: decimal numbers, white space and trimming, reading
//! numbers, searching and splitting, the tui file's escape, and UTF-8 byte
//! lengths and byte-wise truncation.

use vstd::prelude::*;
use vstd::utf8::{encode_scalar, encode_utf8};

verus! {

/// The ASCII digit for `d` (`d < 10`).
pub open spec fn digit_char(d: nat) -> char {
    (48 + d) as char
}

/// The decimal representation of `n`, without sign or leading zeros, as
/// `to_string` writes it.
pub open spec fn dec_chars(n: nat) -> Seq<char>
    decreases n,
{
    if n < 10 {
        seq![digit_char(n)]
    } else {
        dec_chars(n / 10).push(digit_char(n % 10))
    }
}

/// Appends one character to a string (`String::push`).
#[verifier::external_body]
pub(crate) fn push_char(s: &mut String, c: char)
    ensures
        final(s)@ == old(s)@.push(c),
{
    s.push(c);
}

/// Appends the decimal representation of `n` to `s`.
pub fn push_decimal(s: &mut String, n: u128)
    ensures
        final(s)@ == old(s)@ + dec_chars(n as nat),
    decreases n,
{
    if n >= 10 {
        push_decimal(s, n / 10);
    }
    let d: u8 = (n % 10) as u8;
    let c: char = (48u8 + d) as char;
    push_char(s, c);
    proof {
        if n >= 10 {
            assert(dec_chars(n as nat) == dec_chars((n / 10) as nat).push(digit_char((n % 10) as nat)));
        }
    }
}

/// The terminal's cursor move to `(row, col)`: `ESC [ row ; col H`.
pub open spec fn cursor_to(row: int, col: int) -> Seq<char> {
    seq!['\x1b', '['] + dec_chars(row as nat) + seq![';'] + dec_chars(col as nat) + seq!['H']
}

/// Appends the cursor move to `(row, col)`.
pub fn push_cursor_to(s: &mut String, row: u128, col: u128)
    ensures
        final(s)@ == old(s)@ + cursor_to(row as int, col as int),
{
    let ghost before = s@;
    push_char(s, '\x1b');
    push_char(s, '[');
    push_decimal(s, row);
    push_char(s, ';');
    push_decimal(s, col);
    push_char(s, 'H');
    assert(s@ =~= before + cursor_to(row as int, col as int));
}

/// Appends the characters of `v`.
pub fn push_chars(s: &mut String, v: &Vec<char>)
    ensures
        final(s)@ == old(s)@ + v@,
{
    let ghost before = s@;
    let mut i: usize = 0;
    while i < v.len()
        invariant
            i <= v.len(),
            s@ == before + v@.subrange(0, i as int),
        decreases v.len() - i,
    {
        push_char(s, v[i]);
        i = i + 1;
        assert(s@ =~= before + v@.subrange(0, i as int));
    }
    assert(v@.subrange(0, v.len() as int) =~= v@);
}

/// The decimal representation of `n` as a new string.
pub fn decimal_string(n: u128) -> (s: String)
    ensures
        s@ == dec_chars(n as nat),
{
    let mut s = String::new();
    push_decimal(&mut s, n);
    assert(s@ =~= dec_chars(n as nat));
    s
}

/// The characters of `s`, in order.
pub fn to_chars(s: &str) -> (v: Vec<char>)
    ensures
        v@ == s@,
{
    let mut v: Vec<char> = Vec::new();
    for c in it: s.chars()
        invariant
            v@ == it.seq().take(it.index() as int),
    {
        v.push(c);
    }
    v
}

/// A string made of the given characters.
pub fn from_chars(v: &Vec<char>) -> (s: String)
    ensures
        s@ == v@,
{
    let mut s = String::new();
    let mut i: usize = 0;
    while i < v.len()
        invariant
            i <= v.len(),
            s@ == v@.take(i as int),
        decreases v.len() - i,
    {
        push_char(&mut s, v[i]);
        i = i + 1;
        assert(s@ =~= v@.take(i as int));
    }
    assert(v@.take(v.len() as int) =~= v@);
    s
}

/// The characters `s[lo..hi]`.
pub fn sub_chars(s: &Vec<char>, lo: usize, hi: usize) -> (r: Vec<char>)
    requires
        lo <= hi <= s.len(),
    ensures
        r@ == s@.subrange(lo as int, hi as int),
{
    let mut r: Vec<char> = Vec::new();
    let mut i: usize = lo;
    while i < hi
        invariant
            lo <= i <= hi <= s.len(),
            r@ == s@.subrange(lo as int, i as int),
        decreases hi - i,
    {
        r.push(s[i]);
        i = i + 1;
        assert(r@ =~= s@.subrange(lo as int, i as int));
    }
    r
}

// ---------------------------------------------------------------------------
// Whitespace and trimming.

/// Unicode white space, as `char::is_whitespace` decides it.
pub open spec fn is_ws(c: char) -> bool {
    let u = c as u32;
    (9 <= u <= 13) || u == 32 || u == 0x85 || u == 0xA0 || u == 0x1680 || (0x2000 <= u
        <= 0x200A) || u == 0x2028 || u == 0x2029 || u == 0x202F || u == 0x205F || u == 0x3000
}

pub fn is_ws_exec(c: char) -> (r: bool)
    ensures
        r == is_ws(c),
{
    let u = c as u32;
    (9 <= u && u <= 13) || u == 32 || u == 0x85 || u == 0xA0 || u == 0x1680 || (0x2000 <= u && u
        <= 0x200A) || u == 0x2028 || u == 0x2029 || u == 0x202F || u == 0x205F || u == 0x3000
}

/// The end of the run of white space that starts at `i`.
pub open spec fn ws_run_end(s: Seq<char>, i: int) -> int
    decreases s.len() - i,
{
    if 0 <= i < s.len() && is_ws(s[i]) {
        ws_run_end(s, i + 1)
    } else {
        i
    }
}

/// The start of the run of white space that ends at `j`, not before `lo`.
pub open spec fn ws_run_start(s: Seq<char>, lo: int, j: int) -> int
    decreases j - lo,
{
    if lo < j <= s.len() && is_ws(s[j - 1]) {
        ws_run_start(s, lo, j - 1)
    } else {
        j
    }
}

/// `s` without leading and trailing white space (`str::trim`).
pub open spec fn trim(s: Seq<char>) -> Seq<char> {
    let lo = ws_run_end(s, 0);
    s.subrange(lo, ws_run_start(s, lo, s.len() as int))
}



/// The bounds of `trim(s)` in `s`.
pub fn trim_bounds(s: &Vec<char>) -> (r: (usize, usize))
    ensures
        r.0 <= r.1 <= s.len(),
        r.0 == ws_run_end(s@, 0),
        r.1 == ws_run_start(s@, r.0 as int, s@.len() as int),
        s@.subrange(r.0 as int, r.1 as int) == trim(s@),
{
    let mut lo: usize = 0;
    while lo < s.len() && is_ws_exec(s[lo])
        invariant
            lo <= s.len(),
            ws_run_end(s@, 0) == ws_run_end(s@, lo as int),
        decreases s.len() - lo,
    {
        lo = lo + 1;
    }
    let mut hi: usize = s.len();
    while hi > lo && is_ws_exec(s[hi - 1])
        invariant
            lo <= hi <= s.len(),
            lo == ws_run_end(s@, 0),
            ws_run_start(s@, lo as int, s@.len() as int) == ws_run_start(s@, lo as int, hi as int),
        decreases hi,
    {
        hi = hi - 1;
    }
    (lo, hi)
}

/// `str::trim`.
pub fn trim_exec(s: &Vec<char>) -> (r: Vec<char>)
    ensures
        r@ == trim(s@),
{
    let (lo, hi) = trim_bounds(s);
    sub_chars(s, lo, hi)
}

// ---------------------------------------------------------------------------
// Numbers.

pub open spec fn is_digit(c: char) -> bool {
    '0' <= c <= '9'
}

/// Whether `s[lo..hi]` holds ASCII digits only.
pub open spec fn all_digits(s: Seq<char>, lo: int, hi: int) -> bool {
    forall|i: int| lo <= i < hi ==> is_digit(#[trigger] s[i])
}

/// The value of the decimal digits `s[lo..hi]`.
pub open spec fn digits_value(s: Seq<char>, lo: int, hi: int) -> nat
    decreases hi - lo,
{
    if hi <= lo {
        0
    } else {
        digits_value(s, lo, hi - 1) * 10 + ((s[hi - 1] as u32) - 48) as nat
    }
}

/// `u8::from_str`: an optional `+`, then at least one ASCII digit, and a
/// value of at most 255.
pub open spec fn parse_u8(s: Seq<char>) -> Option<u8> {
    let start: int = if s.len() > 0 && s[0] == '+' { 1 } else { 0 };
    if start < s.len() && all_digits(s, start, s.len() as int) && digits_value(
        s,
        start,
        s.len() as int,
    ) <= 255 {
        Some(digits_value(s, start, s.len() as int) as u8)
    } else {
        None
    }
}

/// `s.parse::<u8>().ok()`.
pub fn parse_u8_exec(s: &Vec<char>) -> (r: Option<u8>)
    ensures
        r == parse_u8(s@),
{
    let n = s.len();
    let start: usize = if n > 0 && s[0] == '+' { 1 } else { 0 };
    if start >= n {
        return None;
    }
    let mut acc: u32 = 0;
    let mut i: usize = start;
    while i < n
        invariant
            start <= i <= n == s.len(),
            start as int == (if s@.len() > 0 && s@[0] == '+' { 1int } else { 0int }),
            all_digits(s@, start as int, i as int),
            acc <= 256,
            acc <= 255 ==> acc == digits_value(s@, start as int, i as int),
            acc == 256 ==> digits_value(s@, start as int, i as int) > 255,
        decreases n - i,
    {
        let c = s[i];
        if !('0' <= c && c <= '9') {
            assert(!is_digit(s@[i as int]));
            assert(!all_digits(s@, start as int, n as int));
            return None;
        }
        let dv: u32 = (c as u32) - 48;
        if acc <= 255 {
            let next = acc * 10 + dv;
            acc = if next > 255 { 256 } else { next };
        }
        i = i + 1;
    }
    if acc <= 255 {
        Some(acc as u8)
    } else {
        None
    }
}

/// Digits read back do not depend on what follows them.
proof fn lemma_digits_value_push(s: Seq<char>, x: char, lo: int, hi: int)
    requires
        0 <= lo <= hi <= s.len(),
    ensures
        digits_value(s.push(x), lo, hi) == digits_value(s, lo, hi),
        all_digits(s, lo, hi) ==> all_digits(s.push(x), lo, hi),
    decreases hi - lo,
{
    if lo < hi {
        lemma_digits_value_push(s, x, lo, hi - 1);
        assert(s.push(x)[hi - 1] == s[hi - 1]);
    }
    if all_digits(s, lo, hi) {
        assert forall|i: int| lo <= i < hi implies is_digit(#[trigger] s.push(x)[i]) by {
            assert(s.push(x)[i] == s[i]);
        }
    }
}

/// The decimal text of `n` is made of digits whose value is `n`.
pub proof fn lemma_dec_value(n: nat)
    ensures
        all_digits(dec_chars(n), 0, dec_chars(n).len() as int),
        digits_value(dec_chars(n), 0, dec_chars(n).len() as int) == n,
        dec_chars(n).len() >= 1,
    decreases n,
{
    if n < 10 {
        let s = dec_chars(n);
        assert(s[0] == digit_char(n));
        assert(digits_value(s, 0, 0) == 0);
        assert(((s[0] as u32) - 48) as nat == n);
    } else {
        let p = dec_chars(n / 10);
        lemma_dec_value(n / 10);
        let d = digit_char(n % 10);
        lemma_digits_value_push(p, d, 0, p.len() as int);
        let s = dec_chars(n);
        assert(s == p.push(d));
        assert(s[p.len() as int] == d);
        assert(((d as u32) - 48) as nat == n % 10);
        assert forall|i: int| 0 <= i < s.len() implies is_digit(#[trigger] s[i]) by {
            if i < p.len() {
                assert(s[i] == p[i]);
            }
        }
    }
}

/// Reading back a written number: the decimal text of every `u8` parses to
/// that number.
pub proof fn law_decimal_round_trip(n: u8)
    ensures
        parse_u8(dec_chars(n as nat)) == Some(n),
{
    lemma_dec_value(n as nat);
    let s = dec_chars(n as nat);
    assert(is_digit(s[0]));
}

// ---------------------------------------------------------------------------
// Searching.

/// Whether `p` occurs in `s` at position `i`.
pub open spec fn occurs_at(s: Seq<char>, p: Seq<char>, i: int) -> bool {
    0 <= i && i + p.len() <= s.len() && s.subrange(i, i + p.len()) == p
}

/// The first position at or after `i` where `p` occurs in `s`.
pub open spec fn find_from(s: Seq<char>, p: Seq<char>, i: int) -> Option<int>
    decreases s.len() + 1 - i,
{
    if i < 0 || i + p.len() > s.len() {
        None
    } else if occurs_at(s, p, i) {
        Some(i)
    } else {
        find_from(s, p, i + 1)
    }
}

/// `str::contains`.
pub open spec fn contains_pat(s: Seq<char>, p: Seq<char>) -> bool {
    find_from(s, p, 0) is Some
}

/// `str::starts_with`.
pub open spec fn starts_with(s: Seq<char>, p: Seq<char>) -> bool {
    occurs_at(s, p, 0)
}

/// `str::split_once`: the text before and after the first occurrence of
/// `p`.
pub open spec fn split_once(s: Seq<char>, p: Seq<char>) -> Option<(Seq<char>, Seq<char>)> {
    match find_from(s, p, 0) {
        Some(i) => Some((s.subrange(0, i), s.subrange(i + p.len(), s.len() as int))),
        None => None,
    }
}

pub fn occurs_at_exec(s: &Vec<char>, p: &Vec<char>, i: usize) -> (r: bool)
    ensures
        r == occurs_at(s@, p@, i as int),
{
    if i > s.len() || p.len() > s.len() - i {
        return false;
    }
    let mut k: usize = 0;
    while k < p.len()
        invariant
            i + p.len() <= s.len(),
            k <= p.len(),
            forall|m: int| 0 <= m < k ==> s@[i + m] == p@[m],
        decreases p.len() - k,
    {
        if s[i + k] != p[k] {
            assert(s@.subrange(i as int, i + p.len())[k as int] != p@[k as int]);
            return false;
        }
        k = k + 1;
    }
    assert(s@.subrange(i as int, i + p.len()) =~= p@);
    true
}

pub fn find_exec(s: &Vec<char>, p: &Vec<char>) -> (r: Option<usize>)
    ensures
        match r {
            Some(i) => find_from(s@, p@, 0) == Some(i as int),
            None => find_from(s@, p@, 0) is None,
        },
{
    if p.len() == 0 {
        assert(s@.subrange(0, 0) =~= p@);
        return Some(0);
    }
    let mut i: usize = 0;
    while i < s.len() && p.len() <= s.len() - i
        invariant
            i <= s.len(),
            p.len() > 0,
            find_from(s@, p@, 0) == find_from(s@, p@, i as int),
        decreases s.len() - i,
    {
        if occurs_at_exec(s, p, i) {
            return Some(i);
        }
        i = i + 1;
    }
    None
}

pub fn contains_exec(s: &Vec<char>, p: &Vec<char>) -> (r: bool)
    ensures
        r == contains_pat(s@, p@),
{
    find_exec(s, p).is_some()
}

pub fn split_once_exec(s: &Vec<char>, p: &Vec<char>) -> (r: Option<(Vec<char>, Vec<char>)>)
    ensures
        match r {
            Some((a, b)) => split_once(s@, p@) == Some((a@, b@)),
            None => split_once(s@, p@) is None,
        },
{
    match find_exec(s, p) {
        Some(i) => {
            proof {
                lemma_find_from_bounds(s@, p@, 0);
                assert(i + p@.len() <= s@.len());
            }
            let plen = p.len();
            assert(i + plen <= s.len());
            let a = sub_chars(s, 0, i);
            let b = sub_chars(s, i + plen, s.len());
            Some((a, b))
        },
        None => None,
    }
}

pub proof fn lemma_find_from_bounds(s: Seq<char>, p: Seq<char>, i: int)
    ensures
        find_from(s, p, i) matches Some(k) ==> i <= k && k + p.len() <= s.len(),
    decreases s.len() + 1 - i,
{
    if i < 0 || i + p.len() > s.len() {
    } else if occurs_at(s, p, i) {
    } else {
        lemma_find_from_bounds(s, p, i + 1);
    }
}

// ---------------------------------------------------------------------------
// Stripping repeated prefixes and suffixes.

/// The end of the run of back-to-back copies of `p` that starts at `i`.
pub open spec fn pat_run_end(s: Seq<char>, p: Seq<char>, i: int) -> int
    decreases s.len() - i,
{
    if p.len() > 0 && occurs_at(s, p, i) {
        pat_run_end(s, p, i + p.len())
    } else {
        i
    }
}

/// `str::trim_start_matches` with a string pattern.
pub open spec fn trim_start_matches(s: Seq<char>, p: Seq<char>) -> Seq<char> {
    s.subrange(pat_run_end(s, p, 0), s.len() as int)
}

/// The start of the run of `c` that ends at `j`.
pub open spec fn char_run_start(s: Seq<char>, c: char, j: int) -> int
    decreases j,
{
    if 0 < j <= s.len() && s[j - 1] == c {
        char_run_start(s, c, j - 1)
    } else {
        j
    }
}

/// `str::trim_end_matches` with a `char` pattern.
pub open spec fn trim_end_matches(s: Seq<char>, c: char) -> Seq<char> {
    s.subrange(0, char_run_start(s, c, s.len() as int))
}



pub fn trim_start_matches_exec(s: &Vec<char>, p: &Vec<char>) -> (r: Vec<char>)
    ensures
        r@ == trim_start_matches(s@, p@),
{
    let mut i: usize = 0;
    if p.len() > 0 {
        while occurs_at_exec(s, p, i)
            invariant
                0 <= i <= s.len(),
                p.len() > 0,
                pat_run_end(s@, p@, 0) == pat_run_end(s@, p@, i as int),
            decreases s.len() - i,
        {
            i = i + p.len();
        }
    }
    sub_chars(s, i, s.len())
}

pub fn trim_end_matches_exec(s: &Vec<char>, c: char) -> (r: Vec<char>)
    ensures
        r@ == trim_end_matches(s@, c),
{
    let mut j: usize = s.len();
    while j > 0 && s[j - 1] == c
        invariant
            j <= s.len(),
            char_run_start(s@, c, s@.len() as int) == char_run_start(s@, c, j as int),
        decreases j,
    {
        j = j - 1;
    }
    sub_chars(s, 0, j)
}

// ---------------------------------------------------------------------------
// Splitting.

/// The first position at or after `i` that holds `c`, or the length of `s`.
pub open spec fn find_char_from(s: Seq<char>, c: char, i: int) -> int
    decreases s.len() - i,
{
    if i < 0 || i >= s.len() {
        s.len() as int
    } else if s[i] == c {
        i
    } else {
        find_char_from(s, c, i + 1)
    }
}

pub proof fn lemma_find_char_from_bounds(s: Seq<char>, c: char, i: int)
    requires
        0 <= i,
    ensures
        i <= find_char_from(s, c, i) || find_char_from(s, c, i) == s.len(),
        find_char_from(s, c, i) <= s.len(),
    decreases s.len() - i,
{
    if i < s.len() && s[i] != c {
        lemma_find_char_from_bounds(s, c, i + 1);
    }
}

/// The pieces of `s[i..]` between occurrences of `c`.
pub open spec fn split_from(s: Seq<char>, c: char, i: int) -> Seq<Seq<char>>
    decreases s.len() - i,
    when 0 <= i <= s.len()
{
    let j = find_char_from(s, c, i);
    proof {
        lemma_find_char_from_bounds(s, c, i);
    }
    if j >= s.len() {
        seq![s.subrange(i, s.len() as int)]
    } else {
        seq![s.subrange(i, j)].add(split_from(s, c, j + 1))
    }
}

/// `str::split` with a `char` separator: always at least one piece.
pub open spec fn split_char(s: Seq<char>, c: char) -> Seq<Seq<char>> {
    split_from(s, c, 0)
}

/// The end of the word that starts at `i`.
pub open spec fn word_end(s: Seq<char>, i: int) -> int
    decreases s.len() - i,
{
    if 0 <= i < s.len() && !is_ws(s[i]) {
        word_end(s, i + 1)
    } else {
        i
    }
}

pub proof fn lemma_word_end_bounds(s: Seq<char>, i: int)
    requires
        0 <= i <= s.len(),
    ensures
        i <= word_end(s, i) <= s.len(),
        i < s.len() && !is_ws(s[i]) ==> i < word_end(s, i),
    decreases s.len() - i,
{
    if i < s.len() && !is_ws(s[i]) {
        lemma_word_end_bounds(s, i + 1);
    }
}

/// The words of `s[i..]`: maximal runs of non-white-space characters.
pub open spec fn words_from(s: Seq<char>, i: int) -> Seq<Seq<char>>
    decreases s.len() - i,
    when 0 <= i <= s.len()
{
    if i >= s.len() {
        seq![]
    } else if is_ws(s[i]) {
        words_from(s, i + 1)
    } else {
        let e = word_end(s, i);
        proof {
            lemma_word_end_bounds(s, i);
        }
        seq![s.subrange(i, e)].add(words_from(s, e))
    }
}

/// `str::split_whitespace`.
pub open spec fn words(s: Seq<char>) -> Seq<Seq<char>> {
    words_from(s, 0)
}

/// The deep view of a list of character lists.
pub open spec fn char_lists(v: Seq<Vec<char>>) -> Seq<Seq<char>> {
    v.map_values(|x: Vec<char>| x@)
}

pub fn split_char_exec(s: &Vec<char>, c: char) -> (r: Vec<Vec<char>>)
    ensures
        char_lists(r@) == split_char(s@, c),
{
    let mut r: Vec<Vec<char>> = Vec::new();
    let mut i: usize = 0;
    loop
        invariant
            i <= s.len(),
            char_lists(r@) + split_from(s@, c, i as int) == split_char(s@, c),
        decreases s.len() - i,
    {
        let mut j: usize = i;
        while j < s.len() && s[j] != c
            invariant
                i <= j <= s.len(),
                find_char_from(s@, c, i as int) == find_char_from(s@, c, j as int),
            decreases s.len() - j,
        {
            j = j + 1;
        }
        let piece = sub_chars(s, i, j);
        let ghost before = r@;
        r.push(piece);
        assert(char_lists(r@) =~= char_lists(before).push(piece@));
        if j >= s.len() {
            assert(char_lists(r@) =~= split_char(s@, c));
            return r;
        }
        assert(char_lists(r@) + split_from(s@, c, j + 1) =~= char_lists(before) + split_from(
            s@,
            c,
            i as int,
        ));
        i = j + 1;
    }
}

pub fn words_exec(s: &Vec<char>) -> (r: Vec<Vec<char>>)
    ensures
        char_lists(r@) == words(s@),
{
    let mut r: Vec<Vec<char>> = Vec::new();
    let mut i: usize = 0;
    while i < s.len()
        invariant
            i <= s.len(),
            char_lists(r@) + words_from(s@, i as int) == words(s@),
        decreases s.len() - i,
    {
        if is_ws_exec(s[i]) {
            i = i + 1;
        } else {
            let mut e: usize = i;
            while e < s.len() && !is_ws_exec(s[e])
                invariant
                    i <= e <= s.len(),
                    word_end(s@, i as int) == word_end(s@, e as int),
                decreases s.len() - e,
            {
                e = e + 1;
            }
            proof {
                lemma_word_end_bounds(s@, i as int);
            }
            let w = sub_chars(s, i, e);
            let ghost before = r@;
            r.push(w);
            assert(char_lists(r@) + words_from(s@, e as int) =~= char_lists(before) + words_from(
                s@,
                i as int,
            ));
            i = e;
        }
    }
    assert(char_lists(r@) =~= words(s@));
    r
}

// ---------------------------------------------------------------------------
// The escape that tui files use for the terminal's escape character.

/// The five characters `\x1b[` as they stand in a tui file.
pub open spec fn escaped_csi() -> Seq<char> {
    seq!['\\', 'x', '1', 'b', '[']
}

/// `s[i..]` with every `\x1b[` replaced, left to right and without
/// overlap, by the escape character and `[`.
pub open spec fn unescape_from(s: Seq<char>, i: int) -> Seq<char>
    decreases s.len() - i,
{
    if i < 0 || i >= s.len() {
        seq![]
    } else if occurs_at(s, escaped_csi(), i) {
        seq!['\x1b', '['] + unescape_from(s, i + 5)
    } else {
        seq![s[i]] + unescape_from(s, i + 1)
    }
}

/// `s.replace(r"\x1b[", "\x1b[")`.
pub open spec fn unescape(s: Seq<char>) -> Seq<char> {
    unescape_from(s, 0)
}

pub fn unescape_exec(s: &Vec<char>) -> (r: Vec<char>)
    ensures
        r@ == unescape(s@),
{
    let mut pat: Vec<char> = Vec::new();
    pat.push('\\');
    pat.push('x');
    pat.push('1');
    pat.push('b');
    pat.push('[');
    assert(pat@ =~= escaped_csi());
    let mut r: Vec<char> = Vec::new();
    let mut i: usize = 0;
    while i < s.len()
        invariant
            i <= s.len(),
            pat@ == escaped_csi(),
            r@ + unescape_from(s@, i as int) == unescape(s@),
        decreases s.len() - i,
    {
        let ghost before = r@;
        if occurs_at_exec(s, &pat, i) {
            r.push('\x1b');
            r.push('[');
            assert(r@ + unescape_from(s@, i + 5) =~= before + unescape_from(s@, i as int));
            i = i + 5;
        } else {
            r.push(s[i]);
            assert(r@ + unescape_from(s@, i + 1) =~= before + unescape_from(s@, i as int));
            i = i + 1;
        }
    }
    assert(r@ =~= unescape(s@));
    r
}

// ---------------------------------------------------------------------------
// Byte lengths and byte-wise truncation, as `String::len` and
// `String::truncate` see a string: through its UTF-8 encoding.

/// The length of `s` in bytes (`str::len`).
pub open spec fn byte_len(s: Seq<char>) -> nat {
    encode_utf8(s).len()
}

/// The number of leading characters of `s`, from `i` on, whose encoding
/// fits in `k` bytes.
pub open spec fn fit_count(s: Seq<char>, i: int, k: int) -> int
    decreases s.len() - i,
{
    if 0 <= i < s.len() && byte_len(s.subrange(0, i + 1)) <= k {
        fit_count(s, i + 1, k)
    } else {
        i
    }
}

/// `s` after `String::truncate(k)`: the longest prefix of at most `k` bytes.
pub open spec fn truncate_bytes(s: Seq<char>, k: int) -> Seq<char> {
    s.subrange(0, fit_count(s, 0, k))
}

/// Whether `String::truncate(k)` accepts `s`: `k` is past the end or falls
/// on a character boundary.
pub open spec fn truncate_ok(s: Seq<char>, k: int) -> bool {
    k >= byte_len(s) || byte_len(truncate_bytes(s, k)) == k
}

/// The encoding of a concatenation is the concatenation of the encodings.
pub proof fn lemma_encode_append(a: Seq<char>, b: Seq<char>)
    ensures
        encode_utf8(a + b) == encode_utf8(a) + encode_utf8(b),
    decreases a.len(),
{
    if a.len() == 0 {
        assert(a + b =~= b);
        assert(encode_utf8(a) =~= Seq::<u8>::empty());
        assert(encode_utf8(a) + encode_utf8(b) =~= encode_utf8(b));
    } else {
        assert((a + b).drop_first() =~= a.drop_first() + b);
        lemma_encode_append(a.drop_first(), b);
        assert(encode_utf8(a + b) =~= encode_utf8(a) + encode_utf8(b));
    }
}

/// One more character adds its own encoding.
pub proof fn lemma_byte_len_step(s: Seq<char>, i: int)
    requires
        0 <= i < s.len(),
    ensures
        byte_len(s.subrange(0, i + 1)) == byte_len(s.subrange(0, i)) + encode_scalar(
            s[i] as u32,
        ).len(),
{
    let one = seq![s[i]];
    assert(s.subrange(0, i + 1) =~= s.subrange(0, i) + one);
    lemma_encode_append(s.subrange(0, i), one);
    assert(one.drop_first() =~= Seq::<char>::empty());
    assert(encode_utf8(one.drop_first()) =~= Seq::<u8>::empty());
    assert(encode_utf8(one) =~= encode_scalar(s[i] as u32));
}

/// Byte lengths grow with the prefix.
pub proof fn lemma_byte_len_mono(s: Seq<char>, i: int, j: int)
    requires
        0 <= i <= j <= s.len(),
    ensures
        byte_len(s.subrange(0, i)) <= byte_len(s.subrange(0, j)),
    decreases j - i,
{
    if i < j {
        lemma_byte_len_step(s, j - 1);
        lemma_byte_len_mono(s, i, j - 1);
    }
}

proof fn lemma_fit_count(s: Seq<char>, i: int, k: int)
    requires
        0 <= i <= s.len(),
        byte_len(s.subrange(0, i)) <= k,
    ensures
        i <= fit_count(s, i, k) <= s.len(),
        byte_len(s.subrange(0, fit_count(s, i, k))) <= k,
        fit_count(s, i, k) == s.len() || byte_len(s.subrange(0, fit_count(s, i, k) + 1)) > k,
    decreases s.len() - i,
{
    if i < s.len() && byte_len(s.subrange(0, i + 1)) <= k {
        lemma_fit_count(s, i + 1, k);
    }
}

/// Truncating to `k` bytes keeps the longest prefix of at most `k` bytes:
/// the result is a prefix of `s`, holds at most `k` bytes, cannot take one
/// more character, and is `s` itself exactly when `s` fits.
pub proof fn law_truncate(s: Seq<char>, k: int)
    requires
        k >= 0,
    ensures
        truncate_bytes(s, k).is_prefix_of(s),
        byte_len(truncate_bytes(s, k)) <= k,
        truncate_bytes(s, k).len() < s.len() ==> byte_len(
            s.subrange(0, truncate_bytes(s, k).len() + 1int),
        ) > k,
        (truncate_bytes(s, k) == s) <==> byte_len(s) <= k,
{
    assert(s.subrange(0, 0) =~= Seq::<char>::empty());
    assert(encode_utf8(Seq::<char>::empty()) =~= Seq::<u8>::empty());
    lemma_fit_count(s, 0, k);
    let n = fit_count(s, 0, k);
    assert(s.subrange(0, s.len() as int) =~= s);
    if n < s.len() {
        lemma_byte_len_mono(s, n + 1, s.len() as int);
        assert(truncate_bytes(s, k).len() != s.len());
    }
}

/// The number of bytes in the UTF-8 encoding of `c`.
pub fn utf8_width(c: char) -> (r: usize)
    ensures
        r == encode_scalar(c as u32).len(),
        1 <= r <= 4,
{
    proof {
        vstd::utf8::char_is_scalar(c);
    }
    let u = c as u32;
    if u < 0x80 {
        1
    } else if u < 0x800 {
        2
    } else if u < 0x10000 {
        3
    } else {
        4
    }
}

/// `s` truncated to `k` bytes, and whether `k` was acceptable to
/// `String::truncate`.
pub fn truncate_bytes_exec(s: &Vec<char>, k: usize) -> (r: (Vec<char>, bool))
    ensures
        r.0@ == truncate_bytes(s@, k as int),
        r.1 == truncate_ok(s@, k as int),
{
    let mut i: usize = 0;
    let mut used: usize = 0;
    assert(s@.subrange(0, 0) =~= Seq::<char>::empty());
    assert(byte_len(Seq::<char>::empty()) == 0);
    let mut full = false;
    while !full && i < s.len()
        invariant
            i <= s.len(),
            used == byte_len(s@.subrange(0, i as int)),
            used <= k,
            fit_count(s@, 0, k as int) == fit_count(s@, i as int, k as int),
            full ==> i < s.len() && byte_len(s@.subrange(0, i + 1)) > k,
        decreases s.len() - i, if full { 0int } else { 1int },
    {
        let w = utf8_width(s[i]);
        proof {
            lemma_byte_len_step(s@, i as int);
        }
        if w > k - used {
            full = true;
        } else {
            used = used + w;
            i = i + 1;
        }
    }
    let r = sub_chars(s, 0, i);
    proof {
        if i == s.len() {
            assert(s@.subrange(0, i as int) =~= s@);
        } else {
            // the next character does not fit: `k` is a boundary only when it is `used`
            lemma_byte_len_mono(s@, i + 1, s.len() as int);
            assert(s@.subrange(0, s.len() as int) =~= s@);
        }
    }
    (r, i == s.len() || used == k)
}

/// The byte length of a concatenation.
pub proof fn lemma_byte_len_append(a: Seq<char>, b: Seq<char>)
    ensures
        byte_len(a + b) == byte_len(a) + byte_len(b),
{
    lemma_encode_append(a, b);
}

/// Whether every character of `s` is ASCII.
pub open spec fn is_ascii_seq(s: Seq<char>) -> bool {
    forall|i: int| 0 <= i < s.len() ==> ((#[trigger] s[i]) as u32) < 128
}

/// An ASCII text has one byte per character.
pub proof fn lemma_ascii_byte_len(s: Seq<char>)
    requires
        is_ascii_seq(s),
    ensures
        byte_len(s) == s.len(),
    decreases s.len(),
{
    if s.len() > 0 {
        let t = s.drop_first();
        assert(is_ascii_seq(t)) by {
            assert forall|i: int| 0 <= i < t.len() implies ((#[trigger] t[i]) as u32) < 128 by {
                assert(t[i] == s[i + 1]);
            }
        }
        lemma_ascii_byte_len(t);
        assert((s[0] as u32) < 128);
    }
}

/// Decimal numbers are ASCII.
pub proof fn lemma_dec_ascii(n: nat)
    ensures
        is_ascii_seq(dec_chars(n)),
        1 <= dec_chars(n).len(),
        n < 10 ==> dec_chars(n).len() == 1,
        n < 100 ==> dec_chars(n).len() <= 2,
        n < 1000 ==> dec_chars(n).len() <= 3,
        n >= 10 ==> dec_chars(n).len() >= 2,
        n >= 100 ==> dec_chars(n).len() >= 3,
    decreases n,
{
    if n >= 10 {
        lemma_dec_ascii(n / 10);
        let d = dec_chars(n / 10);
        assert forall|i: int| 0 <= i < dec_chars(n).len() implies ((#[trigger] dec_chars(n)[i]) as u32)
            < 128 by {
            if i < d.len() {
                assert(dec_chars(n)[i] == d[i]);
            }
        }
    }
}

/// `n` spaces.
pub open spec fn spaces(n: int) -> Seq<char> {
    Seq::new(n as nat, |_i: int| ' ')
}

/// Appends `n` spaces.
pub fn push_spaces(s: &mut String, n: usize)
    ensures
        final(s)@ == old(s)@ + spaces(n as int),
{
    let ghost before = s@;
    let mut i: usize = 0;
    while i < n
        invariant
            i <= n,
            s@ == before + spaces(i as int),
        decreases n - i,
    {
        push_char(s, ' ');
        i = i + 1;
        assert(s@ =~= before + spaces(i as int));
    }
}

/// The byte length of `v`, where it is at most `cap`.
pub fn byte_len_upto(v: &Vec<char>, cap: usize) -> (r: Option<usize>)
    ensures
        match r {
            Some(n) => n == byte_len(v@) && n <= cap,
            None => byte_len(v@) > cap,
        },
{
    let mut i: usize = 0;
    let mut used: usize = 0;
    assert(v@.subrange(0, 0) =~= Seq::<char>::empty());
    assert(byte_len(Seq::<char>::empty()) == 0);
    while i < v.len()
        invariant
            i <= v.len(),
            used == byte_len(v@.subrange(0, i as int)),
            used <= cap,
        decreases v.len() - i,
    {
        let w = utf8_width(v[i]);
        proof {
            lemma_byte_len_step(v@, i as int);
        }
        if w > cap - used {
            proof {
                lemma_byte_len_mono(v@, i + 1, v.len() as int);
                assert(v@.subrange(0, v.len() as int) =~= v@);
            }
            return None;
        }
        used = used + w;
        i = i + 1;
    }
    assert(v@.subrange(0, v.len() as int) =~= v@);
    Some(used)
}

} // verus!
