//! Character-level text helpers shared by the printing and scheduling code.
//!
//! Strings are modelled by their views, sequences of `char`. The helpers here
//! state, as spec functions, what the standard library's string operations
//! used by the paper do (`trim`, `lines`, `split`, `contains`, `join`,
//! decimal formatting and parsing of integers), and implement them with
//! proofs against those statements.

use vstd::prelude::*;

verus! {

// ------------------------------------------------------------------ building

/// Appends one character to a string (`String::push`).
#[verifier::external_body]
pub(crate) fn push_char(s: &mut String, c: char)
    ensures
        final(s)@ == old(s)@.push(c),
{
    s.push(c);
}

/// Whether two string slices hold the same characters.
pub fn str_eq(a: &str, b: &str) -> (r: bool)
    ensures
        r == (a@ == b@),
{
    let x = to_owned(a);
    let y = to_owned(b);
    x == y
}

/// The characters of `s`, in order.
pub fn chars_of(s: &str) -> (v: Vec<char>)
    ensures
        v@ == s@,
{
    let mut v: Vec<char> = Vec::new();
    for c in it: s.chars()
        invariant
            v@ == it.seq().take(it.index() as int),
            it.seq() == s@,
    {
        v.push(c);
    }
    v
}

/// A string made of the characters `v[lo..hi]`.
pub fn string_of_range(v: &[char], lo: usize, hi: usize) -> (s: String)
    requires
        lo <= hi <= v@.len(),
    ensures
        s@ == v@.subrange(lo as int, hi as int),
{
    let mut s = String::new();
    let mut i = lo;
    while i < hi
        invariant
            lo <= i <= hi <= v@.len(),
            s@ == v@.subrange(lo as int, i as int),
        decreases hi - i,
    {
        push_char(&mut s, v[i]);
        proof {
            assert(v@.subrange(lo as int, i + 1) =~= v@.subrange(lo as int, i as int).push(v@[i as int]));
        }
        i = i + 1;
    }
    s
}

/// An owned copy of a string slice.
pub fn to_owned(s: &str) -> (r: String)
    ensures
        r@ == s@,
{
    let mut r = String::new();
    r.append(s);
    proof {
        assert(r@ =~= s@);
    }
    r
}

/// The view of an optional string slice.
pub open spec fn opt_str_view(o: Option<&str>) -> Option<Seq<char>> {
    match o {
        Some(s) => Some(s@),
        None => None,
    }
}

/// The view of an optional string.
pub open spec fn opt_view(o: Option<String>) -> Option<Seq<char>> {
    match o {
        Some(s) => Some(s@),
        None => None,
    }
}

// -------------------------------------------------------------- white space

/// Unicode `White_Space`, which is what `char::is_whitespace`, `str::trim`
/// and the regex class `\s` go by.
pub open spec fn is_white_space(c: char) -> bool {
    let u = c as u32;
    ||| 0x9 <= u <= 0xd
    ||| u == 0x20
    ||| u == 0x85
    ||| u == 0xa0
    ||| u == 0x1680
    ||| 0x2000 <= u <= 0x200a
    ||| u == 0x2028
    ||| u == 0x2029
    ||| u == 0x202f
    ||| u == 0x205f
    ||| u == 0x3000
}

/// Executable `is_white_space`.
pub fn white_space(c: char) -> (r: bool)
    ensures
        r == is_white_space(c),
{
    let u = c as u32;
    (0x9 <= u && u <= 0xd) || u == 0x20 || u == 0x85 || u == 0xa0 || u == 0x1680 || (0x2000 <= u
        && u <= 0x200a) || u == 0x2028 || u == 0x2029 || u == 0x202f || u == 0x205f || u == 0x3000
}

/// `s` without its leading white space.
pub open spec fn trim_start(s: Seq<char>) -> Seq<char>
    decreases s.len(),
{
    if s.len() > 0 && is_white_space(s[0]) {
        trim_start(s.drop_first())
    } else {
        s
    }
}

/// `s` without its trailing white space.
pub open spec fn trim_end(s: Seq<char>) -> Seq<char>
    decreases s.len(),
{
    if s.len() > 0 && is_white_space(s.last()) {
        trim_end(s.drop_last())
    } else {
        s
    }
}

/// `str::trim`: `s` without leading and trailing white space.
pub open spec fn trim(s: Seq<char>) -> Seq<char> {
    trim_end(trim_start(s))
}

/// Index of the first character of `v[lo..hi]` that is not white space, or `hi`.
fn skip_white_forward(v: &[char], lo: usize, hi: usize) -> (k: usize)
    requires
        lo <= hi <= v@.len(),
    ensures
        lo <= k <= hi,
        trim_start(v@.subrange(lo as int, hi as int)) == v@.subrange(k as int, hi as int),
{
    let mut k = lo;
    while k < hi && white_space(v[k])
        invariant
            lo <= k <= hi <= v@.len(),
            trim_start(v@.subrange(lo as int, hi as int)) == trim_start(
                v@.subrange(k as int, hi as int),
            ),
        decreases hi - k,
    {
        proof {
            assert(v@.subrange(k as int, hi as int).drop_first() =~= v@.subrange(
                k + 1,
                hi as int,
            ));
        }
        k = k + 1;
    }
    k
}

/// End of `v[lo..hi]` once its trailing white space is dropped.
fn skip_white_backward(v: &[char], lo: usize, hi: usize) -> (k: usize)
    requires
        lo <= hi <= v@.len(),
    ensures
        lo <= k <= hi,
        trim_end(v@.subrange(lo as int, hi as int)) == v@.subrange(lo as int, k as int),
{
    let mut k = hi;
    while k > lo && white_space(v[k - 1])
        invariant
            lo <= k <= hi <= v@.len(),
            trim_end(v@.subrange(lo as int, hi as int)) == trim_end(
                v@.subrange(lo as int, k as int),
            ),
        decreases k - lo,
    {
        proof {
            assert(v@.subrange(lo as int, k as int).drop_last() =~= v@.subrange(
                lo as int,
                k - 1,
            ));
        }
        k = k - 1;
    }
    k
}

/// Bounds `(a, b)` such that `v[a..b]` is `v[lo..hi]` trimmed.
pub fn trim_bounds(v: &[char], lo: usize, hi: usize) -> (r: (usize, usize))
    requires
        lo <= hi <= v@.len(),
    ensures
        lo <= r.0 <= r.1 <= hi,
        trim(v@.subrange(lo as int, hi as int)) == v@.subrange(r.0 as int, r.1 as int),
{
    let a = skip_white_forward(v, lo, hi);
    let b = skip_white_backward(v, a, hi);
    (a, b)
}

/// `str::trim`, giving an owned string.
pub fn trimmed(s: &str) -> (r: String)
    ensures
        r@ == trim(s@),
{
    let v = chars_of(s);
    let (a, b) = trim_bounds(&v, 0, v.len());
    proof {
        assert(v@.subrange(0, v@.len() as int) =~= v@);
    }
    string_of_range(&v, a, b)
}

// ------------------------------------------------------------ utf-8 length

/// Bytes that `c` takes in UTF-8 (`char::len_utf8`).
pub open spec fn utf8_width(c: char) -> nat {
    let u = c as u32;
    if u < 0x80 {
        1
    } else if u < 0x800 {
        2
    } else if u < 0x10000 {
        3
    } else {
        4
    }
}

/// Bytes that `s` takes in UTF-8 (`str::len`).
pub open spec fn utf8_len(s: Seq<char>) -> nat
    decreases s.len(),
{
    if s.len() == 0 {
        0
    } else {
        utf8_len(s.drop_last()) + utf8_width(s.last())
    }
}

/// Whether the UTF-8 length of `v` is at most `max`.
pub fn utf8_len_at_most(v: &[char], max: usize) -> (r: bool)
    ensures
        r == (utf8_len(v@) <= max),
{
    let mut total: usize = 0;
    let mut i: usize = 0;
    while i < v.len()
        invariant
            i <= v@.len(),
            total == utf8_len(v@.take(i as int)),
            total <= max,
        decreases v@.len() - i,
    {
        let c = v[i];
        let u = c as u32;
        let w: usize = if u < 0x80 {
            1
        } else if u < 0x800 {
            2
        } else if u < 0x10000 {
            3
        } else {
            4
        };
        proof {
            assert(v@.take(i + 1).drop_last() =~= v@.take(i as int));
        }
        if w > max - total {
            proof {
                lemma_utf8_len_prefix(v@, i + 1);
            }
            return false;
        }
        total = total + w;
        i = i + 1;
    }
    proof {
        assert(v@.take(v@.len() as int) =~= v@);
    }
    true
}

/// A prefix takes no more UTF-8 bytes than the whole.
pub proof fn lemma_utf8_len_prefix(s: Seq<char>, n: int)
    requires
        0 <= n <= s.len(),
    ensures
        utf8_len(s.take(n)) <= utf8_len(s),
    decreases s.len(),
{
    if n < s.len() {
        lemma_utf8_len_prefix(s.drop_last(), n);
        assert(s.drop_last().take(n) =~= s.take(n));
    } else {
        assert(s.take(n) =~= s);
    }
}

// ----------------------------------------------------------------- decimal

/// The ASCII digit of value `d` (`d < 10`).
pub open spec fn digit_char(d: nat) -> char {
    if d == 0 {
        '0'
    } else if d == 1 {
        '1'
    } else if d == 2 {
        '2'
    } else if d == 3 {
        '3'
    } else if d == 4 {
        '4'
    } else if d == 5 {
        '5'
    } else if d == 6 {
        '6'
    } else if d == 7 {
        '7'
    } else if d == 8 {
        '8'
    } else {
        '9'
    }
}

/// Decimal notation of `n`, as `u32::to_string` and friends write it.
pub open spec fn decimal(n: nat) -> Seq<char>
    decreases n,
{
    if n < 10 {
        seq![digit_char(n)]
    } else {
        decimal(n / 10).push(digit_char(n % 10))
    }
}

fn digit_of(d: u64) -> (c: char)
    requires
        d < 10,
    ensures
        c == digit_char(d as nat),
{
    if d == 0 {
        '0'
    } else if d == 1 {
        '1'
    } else if d == 2 {
        '2'
    } else if d == 3 {
        '3'
    } else if d == 4 {
        '4'
    } else if d == 5 {
        '5'
    } else if d == 6 {
        '6'
    } else if d == 7 {
        '7'
    } else if d == 8 {
        '8'
    } else {
        '9'
    }
}

/// Appends the decimal notation of `n` to `s`.
pub fn push_decimal(s: &mut String, n: u64)
    ensures
        final(s)@ == old(s)@ + decimal(n as nat),
    decreases n,
{
    if n < 10 {
        push_char(s, digit_of(n));
        proof {
            assert(final(s)@ =~= old(s)@ + decimal(n as nat));
        }
    } else {
        push_decimal(s, n / 10);
        push_char(s, digit_of(n % 10));
        proof {
            assert(decimal(n as nat) == decimal((n / 10) as nat).push(digit_char((n % 10) as nat)));
            assert(final(s)@ =~= old(s)@ + decimal(n as nat));
        }
    }
}

// ----------------------------------------------------------------- parsing

/// Whether `c` is an ASCII digit.
pub open spec fn is_ascii_digit(c: char) -> bool {
    '0' <= c <= '9'
}

/// Whether every character of `s` is an ASCII digit.
pub open spec fn all_ascii_digits(s: Seq<char>) -> bool {
    forall|i: int| 0 <= i < s.len() ==> is_ascii_digit(#[trigger] s[i])
}

/// Value of a string of ASCII digits, read in base ten.
pub open spec fn digits_value(s: Seq<char>) -> nat
    decreases s.len(),
{
    if s.len() == 0 {
        0
    } else {
        digits_value(s.drop_last()) * 10 + ((s.last() as u32) - ('0' as u32)) as nat
    }
}

/// What `str::parse::<u32>` accepts and gives: an optional `+`, then one or
/// more ASCII digits whose value fits in `u32`.
pub open spec fn parse_u32(s: Seq<char>) -> Option<u32> {
    let d = if s.len() > 0 && s[0] == '+' {
        s.drop_first()
    } else {
        s
    };
    if d.len() > 0 && all_ascii_digits(d) && digits_value(d) <= u32::MAX {
        Some(digits_value(d) as u32)
    } else {
        None
    }
}

/// Digits never lose value when more digits follow.
pub proof fn lemma_digits_value_prefix(s: Seq<char>, n: int)
    requires
        0 <= n <= s.len(),
        all_ascii_digits(s),
    ensures
        digits_value(s.take(n)) <= digits_value(s),
    decreases s.len(),
{
    if n < s.len() {
        assert(all_ascii_digits(s.drop_last()));
        lemma_digits_value_prefix(s.drop_last(), n);
        assert(s.drop_last().take(n) =~= s.take(n));
    } else {
        assert(s.take(n) =~= s);
    }
}

/// `str::parse::<u32>` on the characters `v[lo..hi]`.
pub fn parse_u32_range(v: &[char], lo: usize, hi: usize) -> (r: Option<u32>)
    requires
        lo <= hi <= v@.len(),
    ensures
        r == parse_u32(v@.subrange(lo as int, hi as int)),
{
    let ghost s = v@.subrange(lo as int, hi as int);
    let start: usize = if lo < hi && v[lo] == '+' {
        lo + 1
    } else {
        lo
    };
    let ghost d = v@.subrange(start as int, hi as int);
    let ghost expected = if d.len() > 0 && all_ascii_digits(d) && digits_value(d) <= u32::MAX {
        Some(digits_value(d) as u32)
    } else {
        None::<u32>
    };
    proof {
        if lo < hi && v@[lo as int] == '+' {
            assert(s.drop_first() =~= d);
        } else {
            assert(s =~= d);
        }
        assert(parse_u32(s) == expected);
    }
    if start == hi {
        return None;
    }
    let mut acc: u64 = 0;
    let mut i = start;
    while i < hi
        invariant
            start < hi <= v@.len(),
            start <= i <= hi,
            d == v@.subrange(start as int, hi as int),
            parse_u32(v@.subrange(lo as int, hi as int)) == expected,
            expected == (if d.len() > 0 && all_ascii_digits(d) && digits_value(d) <= u32::MAX {
                Some(digits_value(d) as u32)
            } else {
                None::<u32>
            }),
            all_ascii_digits(v@.subrange(start as int, i as int)),
            acc == digits_value(v@.subrange(start as int, i as int)),
            acc <= u32::MAX,
        decreases hi - i,
    {
        let c = v[i];
        proof {
            assert(v@.subrange(start as int, i + 1).drop_last() =~= v@.subrange(
                start as int,
                i as int,
            ));
            assert(d.take(i + 1 - start) =~= v@.subrange(start as int, i + 1));
            assert(d[i - start] == c);
        }
        if !('0' <= c && c <= '9') {
            return None;
        }
        let next = acc * 10 + ((c as u32) - ('0' as u32)) as u64;
        proof {
            assert(digits_value(v@.subrange(start as int, i + 1)) == next);
        }
        if next > 4294967295 {
            proof {
                if all_ascii_digits(d) {
                    lemma_digits_value_prefix(d, i + 1 - start);
                }
            }
            return None;
        }
        acc = next;
        i = i + 1;
        proof {
            assert forall|k: int| 0 <= k < v@.subrange(start as int, i as int).len() implies is_ascii_digit(
                #[trigger] v@.subrange(start as int, i as int)[k],
            ) by {
                if k < i - 1 - start {
                    assert(v@.subrange(start as int, i as int)[k] == v@.subrange(start as int, i - 1)[k]);
                }
            }
        }
    }
    proof {
        assert(v@.subrange(start as int, hi as int) =~= d);
    }
    Some(acc as u32)
}

/// The digit character of `d` is an ASCII digit worth `d`.
pub proof fn lemma_digit_char(d: nat)
    requires
        d < 10,
    ensures
        is_ascii_digit(digit_char(d)),
        (digit_char(d) as u32) - ('0' as u32) == d,
        digit_char(d) != '+',
{
}

/// Decimal notation is made of ASCII digits, reads back as its number, and
/// so parses back to it.
pub proof fn lemma_decimal_parses(n: nat)
    ensures
        decimal(n).len() > 0,
        all_ascii_digits(decimal(n)),
        digits_value(decimal(n)) == n,
        decimal(n)[0] != '+',
        n <= u32::MAX ==> parse_u32(decimal(n)) == Some(n as u32),
    decreases n,
{
    let d = decimal(n);
    if n < 10 {
        lemma_digit_char(n);
        assert(d.drop_last() =~= Seq::<char>::empty());
        assert(digits_value(d.drop_last()) == 0);
        assert(d.last() == digit_char(n));
        assert(digits_value(d) == n);
    } else {
        lemma_decimal_parses(n / 10);
        lemma_digit_char(n % 10);
        assert(d.drop_last() =~= decimal(n / 10));
        assert forall|i: int| 0 <= i < d.len() implies is_ascii_digit(#[trigger] d[i]) by {
            if i < d.len() - 1 {
                assert(d[i] == decimal(n / 10)[i]);
            }
        }
        assert(d.last() == digit_char(n % 10));
        assert(digits_value(d) == digits_value(decimal(n / 10)) * 10 + (n % 10));
        assert((n / 10) * 10 + n % 10 == n) by (nonlinear_arith);
    }
}

// -------------------------------------------------------------- searching

/// Whether `needle` occurs in `hay` starting at `i`.
pub open spec fn occurs_at(hay: Seq<char>, needle: Seq<char>, i: int) -> bool {
    0 <= i && i + needle.len() <= hay.len() && hay.subrange(i, i + needle.len()) == needle
}

/// `str::contains` with a string pattern.
pub open spec fn contains(hay: Seq<char>, needle: Seq<char>) -> bool {
    exists|i: int| occurs_at(hay, needle, i)
}

/// A text holds itself.
pub proof fn lemma_contains_self(x: Seq<char>)
    ensures
        contains(x, x),
{
    assert(x.subrange(0, x.len() as int) =~= x);
    assert(occurs_at(x, x, 0));
}

/// What either part of a text holds, the whole text holds.
pub proof fn lemma_contains_concat(a: Seq<char>, b: Seq<char>, x: Seq<char>)
    ensures
        contains(a, x) ==> contains(a + b, x),
        contains(b, x) ==> contains(a + b, x),
{
    if contains(a, x) {
        let k = choose|k: int| occurs_at(a, x, k);
        assert((a + b).subrange(k, k + x.len()) =~= a.subrange(k, k + x.len()));
        assert(occurs_at(a + b, x, k));
    }
    if contains(b, x) {
        let k = choose|k: int| occurs_at(b, x, k);
        assert((a + b).subrange(a.len() + k, a.len() + k + x.len()) =~= b.subrange(k, k + x.len()));
        assert(occurs_at(a + b, x, a.len() + k));
    }
}

/// What a text holds, the text with more after it holds too.
pub broadcast proof fn lemma_contains_grows(a: Seq<char>, b: Seq<char>, x: Seq<char>)
    requires
        contains(a, x),
    ensures
        #[trigger] contains(a + b, x),
{
    lemma_contains_concat(a, b, x);
}

/// A text ending in a piece holds it.
pub proof fn lemma_contains_end(a: Seq<char>, x: Seq<char>)
    ensures
        contains(a + x, x),
{
    lemma_contains_self(x);
    lemma_contains_concat(a, x, x);
}

/// A piece of a piece of a text is a piece of the text.
pub proof fn lemma_contains_trans(a: Seq<char>, b: Seq<char>, c: Seq<char>)
    requires
        contains(a, b),
        contains(b, c),
    ensures
        contains(a, c),
{
    let k1 = choose|k: int| occurs_at(a, b, k);
    let k2 = choose|k: int| occurs_at(b, c, k);
    assert(a.subrange(k1 + k2, k1 + k2 + c.len()) =~= b.subrange(k2, k2 + c.len()));
    assert(occurs_at(a, c, k1 + k2));
}

/// How many times `c` occurs in `s` (`s.matches(c).count()`).
pub open spec fn count_char(s: Seq<char>, c: char) -> nat
    decreases s.len(),
{
    if s.len() == 0 {
        0
    } else {
        count_char(s.drop_last(), c) + (if s.last() == c {
            1nat
        } else {
            0nat
        })
    }
}

/// A character's count in two texts put together is the sum of its counts.
pub broadcast proof fn lemma_count_concat(a: Seq<char>, b: Seq<char>, c: char)
    ensures
        #[trigger] count_char(a + b, c) == count_char(a, c) + count_char(b, c),
    decreases b.len(),
{
    if b.len() == 0 {
        assert(a + b =~= a);
    } else {
        lemma_count_concat(a, b.drop_last(), c);
        assert((a + b).drop_last() =~= a + b.drop_last());
        assert((a + b).last() == b.last());
    }
}

/// Decimal numbers hold only digits, so no `c` that is not one.
pub proof fn lemma_decimal_count(n: nat, c: char)
    requires
        !('0' <= c && c <= '9'),
    ensures
        count_char(decimal(n), c) == 0,
    decreases n,
{
    let d = digit_char(n % 10);
    assert('0' <= d && d <= '9');
    assert(decimal(n).last() == d);
    assert(decimal(n).len() > 0);
    assert(count_char(Seq::<char>::empty(), c) == 0);
    if n < 10 {
        assert(decimal(n).drop_last() =~= Seq::<char>::empty());
    } else {
        lemma_decimal_count(n / 10, c);
        assert(decimal(n).drop_last() =~= decimal(n / 10));
    }
}

/// `str::starts_with` with a string pattern.
pub open spec fn starts_with(hay: Seq<char>, prefix: Seq<char>) -> bool {
    occurs_at(hay, prefix, 0)
}

/// `str::ends_with` with a string pattern.
pub open spec fn ends_with(hay: Seq<char>, suffix: Seq<char>) -> bool {
    occurs_at(hay, suffix, hay.len() - suffix.len())
}

/// Whether `needle` occurs in `hay` at `i` (executable).
pub fn matches_at(hay: &[char], needle: &[char], i: usize) -> (r: bool)
    ensures
        r == occurs_at(hay@, needle@, i as int),
{
    if i > hay.len() || needle.len() > hay.len() - i {
        return false;
    }
    let n = hay.len();
    let mut j: usize = 0;
    while j < needle.len()
        invariant
            n == hay@.len(),
            i + needle@.len() <= hay@.len(),
            j <= needle@.len(),
            forall|k: int| 0 <= k < j ==> hay@[i + k] == needle@[k],
        decreases needle@.len() - j,
    {
        assert(i + j < n);
        if hay[i + j] != needle[j] {
            proof {
                assert(hay@.subrange(i as int, i + needle@.len())[j as int] != needle@[j as int]);
            }
            return false;
        }
        j = j + 1;
    }
    proof {
        assert(hay@.subrange(i as int, i + needle@.len()) =~= needle@);
    }
    true
}

/// The first position at or after `from` where `needle` occurs in `hay`.
pub open spec fn find_from(hay: Seq<char>, needle: Seq<char>, from: int) -> Option<int>
    decreases hay.len() + 1 - from,
{
    if from < 0 || from > hay.len() {
        None
    } else if occurs_at(hay, needle, from) {
        Some(from)
    } else {
        find_from(hay, needle, from + 1)
    }
}

/// `str::find` with a string pattern, counted in characters.
pub open spec fn find(hay: Seq<char>, needle: Seq<char>) -> Option<int> {
    find_from(hay, needle, 0)
}

/// What `find_from` finds: the least position from `from` on.
pub proof fn lemma_find_from(hay: Seq<char>, needle: Seq<char>, from: int)
    requires
        0 <= from,
    ensures
        match find_from(hay, needle, from) {
            Some(k) => from <= k && occurs_at(hay, needle, k) && forall|j: int|
                from <= j < k ==> !occurs_at(hay, needle, j),
            None => forall|j: int| from <= j ==> !occurs_at(hay, needle, j),
        },
    decreases hay.len() + 1 - from,
{
    if from > hay.len() {
    } else if occurs_at(hay, needle, from) {
    } else {
        lemma_find_from(hay, needle, from + 1);
    }
}

/// `find_from`, executable.
pub fn find_in(hay: &[char], needle: &[char], from: usize) -> (r: Option<usize>)
    ensures
        match r {
            Some(k) => find_from(hay@, needle@, from as int) == Some(k as int),
            None => find_from(hay@, needle@, from as int) is None,
        },
{
    if from > hay.len() {
        return None;
    }
    let mut i = from;
    loop
        invariant
            from <= i <= hay@.len(),
            find_from(hay@, needle@, from as int) == find_from(hay@, needle@, i as int),
        decreases hay@.len() - i,
    {
        if matches_at(hay, needle, i) {
            return Some(i);
        }
        if i == hay.len() {
            proof {
                assert(find_from(hay@, needle@, i + 1) is None);
            }
            return None;
        }
        i = i + 1;
    }
}

/// `str::contains`, executable.
pub fn contains_str(hay: &[char], needle: &[char]) -> (r: bool)
    ensures
        r == contains(hay@, needle@),
{
    let r = find_in(hay, needle, 0);
    proof {
        lemma_find_from(hay@, needle@, 0);
        if r is None {
            assert forall|i: int| !occurs_at(hay@, needle@, i) by {
                if i >= 0 {
                }
            }
        }
    }
    r.is_some()
}

/// `str::starts_with`, executable.
pub fn starts_with_str(hay: &str, prefix: &str) -> (r: bool)
    ensures
        r == starts_with(hay@, prefix@),
{
    let h = chars_of(hay);
    let p = chars_of(prefix);
    matches_at(&h, &p, 0)
}

/// Whether, with `key` laid at position `j` of `s`, some character of `s`
/// after the first, from the `k`-th of the key on, differs from the key's.
pub open spec fn breaks_off(s: Seq<char>, key: Seq<char>, j: int, k: int) -> bool
    decreases key.len() - k,
{
    if k < 1 || k >= key.len() {
        false
    } else if j + k < s.len() && s[j + k] != key[k] {
        true
    } else {
        breaks_off(s, key, j, k + 1)
    }
}

/// `opens_no_key`, checked position by position from `j` on.
pub open spec fn opens_no_key_from(s: Seq<char>, key: Seq<char>, j: int) -> bool
    decreases s.len() - j,
{
    if j < 0 || j >= s.len() {
        true
    } else {
        (s[j] != key[0] || breaks_off(s, key, j, 1)) && opens_no_key_from(s, key, j + 1)
    }
}

/// No occurrence of `key` can start inside `s`, whatever follows `s`: at each
/// position where `key`'s first character stands, `s` itself goes on with a
/// character that differs from `key`'s.
pub open spec fn opens_no_key(s: Seq<char>, key: Seq<char>) -> bool {
    forall|j: int|
        0 <= j < s.len() && #[trigger] s[j] == key[0] ==> exists|k: int|
            0 < k < key.len() && j + k < s.len() && s[j + k] != key[k]
}

proof fn lemma_breaks_off_witness(s: Seq<char>, key: Seq<char>, j: int, k: int)
    requires
        breaks_off(s, key, j, k),
    ensures
        exists|w: int| 0 < w < key.len() && j + w < s.len() && s[j + w] != key[w],
    decreases key.len() - k,
{
    if k >= 1 && k < key.len() && !(j + k < s.len() && s[j + k] != key[k]) {
        lemma_breaks_off_witness(s, key, j, k + 1);
    }
}

proof fn lemma_opens_no_key_from(s: Seq<char>, key: Seq<char>, j: int)
    requires
        0 <= j,
        opens_no_key_from(s, key, j),
    ensures
        forall|i: int|
            j <= i < s.len() && #[trigger] s[i] == key[0] ==> exists|k: int|
                0 < k < key.len() && i + k < s.len() && s[i + k] != key[k],
    decreases s.len() - j,
{
    if j < s.len() {
        lemma_opens_no_key_from(s, key, j + 1);
        if s[j] == key[0] {
            lemma_breaks_off_witness(s, key, j, 1);
        }
    }
}

/// The position-by-position check establishes `opens_no_key`.
pub proof fn lemma_opens_no_key(s: Seq<char>, key: Seq<char>)
    requires
        opens_no_key_from(s, key, 0),
    ensures
        opens_no_key(s, key),
{
    lemma_opens_no_key_from(s, key, 0);
}

/// A text without the key's first character opens no key.
pub proof fn lemma_opens_no_key_free(s: Seq<char>, key: Seq<char>)
    requires
        forall|i: int| 0 <= i < s.len() ==> s[i] != key[0],
    ensures
        opens_no_key(s, key),
{
}

/// Two texts that open no key, one after the other, open none either.
pub proof fn lemma_opens_no_key_concat(a: Seq<char>, b: Seq<char>, key: Seq<char>)
    requires
        opens_no_key(a, key),
        opens_no_key(b, key),
    ensures
        opens_no_key(a + b, key),
{
    let ab = a + b;
    assert forall|j: int| 0 <= j < ab.len() && #[trigger] ab[j] == key[0] implies exists|k: int|
        0 < k < key.len() && j + k < ab.len() && ab[j + k] != key[k] by {
        if j < a.len() {
            assert(a[j] == key[0]);
            let k = choose|k: int| 0 < k < key.len() && j + k < a.len() && a[j + k] != key[k];
            assert(ab[j + k] == a[j + k]);
        } else {
            let jb = j - a.len();
            assert(b[jb] == key[0]);
            let k = choose|k: int| 0 < k < key.len() && jb + k < b.len() && b[jb + k] != key[k];
            assert(ab[j + k] == b[jb + k]);
        }
    }
}

/// No occurrence of `key` starts inside a text that opens no key.
pub proof fn lemma_no_occurrence(s: Seq<char>, rest: Seq<char>, key: Seq<char>)
    requires
        opens_no_key(s, key),
        key.len() > 0,
    ensures
        forall|j: int| 0 <= j < s.len() ==> !#[trigger] occurs_at(s + rest, key, j),
{
    let t = s + rest;
    assert forall|j: int| 0 <= j < s.len() implies !#[trigger] occurs_at(t, key, j) by {
        if occurs_at(t, key, j) {
            assert(t.subrange(j, j + key.len())[0] == key[0]);
            assert(s[j] == key[0]);
            let k = choose|k: int| 0 < k < key.len() && j + k < s.len() && s[j + k] != key[k];
            assert(t.subrange(j, j + key.len())[k] == key[k]);
            assert(t[j + k] == s[j + k]);
        }
    }
}

/// The first position at or after `start` where `c` stands in `s`.
pub open spec fn find_char_from(s: Seq<char>, c: char, start: int) -> Option<int>
    decreases s.len() - start,
{
    if start < 0 || start >= s.len() {
        None
    } else if s[start] == c {
        Some(start)
    } else {
        find_char_from(s, c, start + 1)
    }
}

/// What `find_char_from` finds: the first such position.
pub proof fn lemma_find_char_from(s: Seq<char>, c: char, start: int)
    requires
        0 <= start,
    ensures
        match find_char_from(s, c, start) {
            Some(k) => start <= k < s.len() && s[k] == c && forall|j: int|
                start <= j < k ==> s[j] != c,
            None => forall|j: int| start <= j < s.len() ==> s[j] != c,
        },
    decreases s.len() - start,
{
    if start < s.len() && s[start] != c {
        lemma_find_char_from(s, c, start + 1);
    }
}

/// `find_char_from`, executable.
pub fn find_char_in(v: &[char], c: char, start: usize) -> (r: Option<usize>)
    requires
        start <= v@.len(),
    ensures
        match r {
            Some(k) => find_char_from(v@, c, start as int) == Some(k as int) && k < v@.len(),
            None => find_char_from(v@, c, start as int) is None,
        },
{
    let mut i = start;
    while i < v.len()
        invariant
            start <= i <= v@.len(),
            find_char_from(v@, c, start as int) == find_char_from(v@, c, i as int),
        decreases v@.len() - i,
    {
        if v[i] == c {
            return Some(i);
        }
        i = i + 1;
    }
    None
}

/// A line without the carriage return that ended it.
pub open spec fn strip_cr(l: Seq<char>) -> Seq<char> {
    if l.len() > 0 && l.last() == '\r' {
        l.drop_last()
    } else {
        l
    }
}

/// The lines of `s[start..]`.
pub open spec fn lines_from(s: Seq<char>, start: int) -> Seq<Seq<char>>
    decreases s.len() - start,
    when 0 <= start <= s.len()
{
    if start >= s.len() {
        seq![]
    } else {
        match find_char_from(s, '\n', start) {
            Some(k) => {
                proof {
                    lemma_find_char_from(s, '\n', start);
                }
                seq![strip_cr(s.subrange(start, k))] + lines_from(s, k + 1)
            },
            None => seq![s.subrange(start, s.len() as int)],
        }
    }
}

/// `str::lines`: the text between line feeds, each without the carriage
/// return before its line feed; no line after a final line feed.
pub open spec fn lines(s: Seq<char>) -> Seq<Seq<char>> {
    lines_from(s, 0)
}

/// `str::lines`, as owned strings.
pub fn lines_of(s: &str) -> (r: Vec<String>)
    ensures
        views(r@) == lines(s@),
{
    let v = chars_of(s);
    let mut r: Vec<String> = Vec::new();
    let mut start: usize = 0;
    let ghost mut done: Seq<Seq<char>> = seq![];
    while start < v.len()
        invariant
            v@ == s@,
            start <= v@.len(),
            lines_from(v@, 0) == done + lines_from(v@, start as int),
            views(r@) == done,
        decreases v@.len() - start,
    {
        let found = find_char_in(&v, '\n', start);
        proof {
            lemma_find_char_from(v@, '\n', start as int);
        }
        match found {
            Some(k) => {
                let end = if k > start && v[k - 1] == '\r' {
                    k - 1
                } else {
                    k
                };
                r.push(string_of_range(&v, start, end));
                proof {
                    let line = v@.subrange(start as int, k as int);
                    if k > start && v@[k - 1] == '\r' {
                        assert(line.drop_last() =~= v@.subrange(start as int, end as int));
                    }
                    assert(strip_cr(line) == v@.subrange(start as int, end as int));
                    assert(lines_from(v@, start as int) == seq![strip_cr(line)] + lines_from(
                        v@,
                        k + 1,
                    ));
                    assert(done + lines_from(v@, start as int) =~= done.push(strip_cr(line))
                        + lines_from(v@, k + 1));
                    done = done.push(strip_cr(line));
                    assert(views(r@) =~= done);
                }
                start = k + 1;
            },
            None => {
                r.push(string_of_range(&v, start, v.len()));
                proof {
                    assert(lines_from(v@, start as int) == seq![
                        v@.subrange(start as int, v@.len() as int),
                    ]);
                    done = done.push(v@.subrange(start as int, v@.len() as int));
                    assert(views(r@) =~= done);
                    assert(lines_from(v@, 0) =~= done);
                }
                return r;
            },
        }
    }
    proof {
        assert(lines_from(v@, 0) =~= done);
    }
    r
}

// -------------------------------------------------------------- joining

/// The strings of `list` with `sep` between each two (`[..].join(sep)`).
pub open spec fn join(list: Seq<Seq<char>>, sep: Seq<char>) -> Seq<char>
    decreases list.len(),
{
    if list.len() == 0 {
        seq![]
    } else if list.len() == 1 {
        list[0]
    } else {
        join(list.drop_last(), sep) + sep + list.last()
    }
}

/// The views of a list of strings.
pub open spec fn views(list: Seq<String>) -> Seq<Seq<char>> {
    list.map_values(|s: String| s@)
}

/// Appends `list` joined by `sep` to `out`.
pub fn push_joined(out: &mut String, list: &Vec<String>, sep: &str)
    ensures
        final(out)@ == old(out)@ + join(views(list@), sep@),
{
    let ghost start = out@;
    let mut i: usize = 0;
    while i < list.len()
        invariant
            i <= list@.len(),
            out@ == start + join(views(list@).take(i as int), sep@),
        decreases list@.len() - i,
    {
        proof {
            assert(views(list@).take(i + 1).drop_last() =~= views(list@).take(i as int));
        }
        if i > 0 {
            out.append(sep);
        }
        out.append(list[i].as_str());
        proof {
            if i == 0 {
                assert(views(list@).take(1) =~= seq![list@[0]@]);
            }
            assert(out@ =~= start + join(views(list@).take(i + 1), sep@));
        }
        i = i + 1;
    }
    proof {
        assert(views(list@).take(list@.len() as int) =~= views(list@));
    }
}


/// The text cut to at most `max` characters, an ellipsis marking the cut.
pub open spec fn truncated(s: Seq<char>, max: nat) -> Seq<char> {
    if s.len() <= max {
        s
    } else {
        s.take(max as int).push('\u{2026}')
    }
}

/// Shortens a message for display: at most `max` characters are kept, and
/// an ellipsis marks where it was cut.
pub fn truncate(s: &str, max: usize) -> (r: String)
    ensures
        r@ == truncated(s@, max as nat),
{
    let v = chars_of(s);
    if v.len() <= max {
        to_owned(s)
    } else {
        let mut r = string_of_range(&v, 0, max);
        push_char(&mut r, '\u{2026}');
        proof {
            assert(v@.subrange(0, max as int) =~= s@.take(max as int));
        }
        r
    }
}

} // verus!
