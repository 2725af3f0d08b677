//! Character-level helpers shared by the parsers and the code emitters:
//! whitespace trimming, searching for a character, and decimal numbers.
use vstd::prelude::*;

verus! {

/// The characters that `char::is_whitespace` accepts (Unicode `White_Space`).
pub open spec fn is_whitespace(c: char) -> bool {
    c == '\t' || c == '\n' || c == '\u{0B}' || c == '\u{0C}' || c == '\r' || c == ' '
        || c == '\u{85}' || c == '\u{A0}' || c == '\u{1680}' || ('\u{2000}' <= c && c
        <= '\u{200A}') || c == '\u{2028}' || c == '\u{2029}' || c == '\u{202F}' || c
        == '\u{205F}' || c == '\u{3000}'
}

pub fn char_is_whitespace(c: char) -> (r: bool)
    ensures
        r == is_whitespace(c),
{
    c == '\t' || c == '\n' || c == '\u{0B}' || c == '\u{0C}' || c == '\r' || c == ' '
        || c == '\u{85}' || c == '\u{A0}' || c == '\u{1680}' || ('\u{2000}' <= c && c
        <= '\u{200A}') || c == '\u{2028}' || c == '\u{2029}' || c == '\u{202F}' || c
        == '\u{205F}' || c == '\u{3000}'
}

pub open spec fn trim_start(s: Seq<char>) -> Seq<char>
    decreases s.len(),
{
    if s.len() > 0 && is_whitespace(s[0]) {
        trim_start(s.drop_first())
    } else {
        s
    }
}

pub open spec fn trim_end(s: Seq<char>) -> Seq<char>
    decreases s.len(),
{
    if s.len() > 0 && is_whitespace(s.last()) {
        trim_end(s.drop_last())
    } else {
        s
    }
}

/// `s` without leading and trailing whitespace.
pub open spec fn trim(s: Seq<char>) -> Seq<char> {
    trim_end(trim_start(s))
}

/// Index of the first `c` in `s`.
pub open spec fn find_first(s: Seq<char>, c: char) -> Option<int>
    decreases s.len(),
{
    if s.len() == 0 {
        None
    } else if s[0] == c {
        Some(0)
    } else {
        match find_first(s.drop_first(), c) {
            Some(i) => Some(i + 1),
            None => None,
        }
    }
}

/// Index of the last `c` in `s`.
pub open spec fn find_last(s: Seq<char>, c: char) -> Option<int>
    decreases s.len(),
{
    if s.len() == 0 {
        None
    } else if s.last() == c {
        Some(s.len() - 1)
    } else {
        find_last(s.drop_last(), c)
    }
}

pub open spec fn lacks(s: Seq<char>, c: char) -> bool {
    forall|i: int| 0 <= i < s.len() ==> s[i] != c
}

pub open spec fn is_digit(c: char) -> bool {
    c == '0' || c == '1' || c == '2' || c == '3' || c == '4' || c == '5' || c == '6' || c
        == '7' || c == '8' || c == '9'
}

pub open spec fn digit_value(c: char) -> nat {
    if c == '1' {
        1
    } else if c == '2' {
        2
    } else if c == '3' {
        3
    } else if c == '4' {
        4
    } else if c == '5' {
        5
    } else if c == '6' {
        6
    } else if c == '7' {
        7
    } else if c == '8' {
        8
    } else if c == '9' {
        9
    } else {
        0
    }
}

pub open spec fn digit_char(d: nat) -> char {
    if d == 1 {
        '1'
    } else if d == 2 {
        '2'
    } else if d == 3 {
        '3'
    } else if d == 4 {
        '4'
    } else if d == 5 {
        '5'
    } else if d == 6 {
        '6'
    } else if d == 7 {
        '7'
    } else if d == 8 {
        '8'
    } else if d == 9 {
        '9'
    } else {
        '0'
    }
}

/// The decimal text of `n`, without sign or leading zeros.
pub open spec fn decimal(n: nat) -> Seq<char>
    decreases n,
{
    if n < 10 {
        seq![digit_char(n)]
    } else {
        decimal(n / 10) + seq![digit_char(n % 10)]
    }
}

/// Why a text is not an unsigned integer, as `core::num::IntErrorKind` tells it.
#[derive(Debug, Clone, Copy, PartialEq, Eq, Hash, Structural)]
pub enum IntErrorKind {
    Empty,
    InvalidDigit,
    PosOverflow,
}

/// Reads the digits of `s` from left to right, as `usize::from_str` does.
pub open spec fn scan_digits(s: Seq<char>) -> Result<nat, IntErrorKind>
    decreases s.len(),
{
    if s.len() == 0 {
        Ok(0)
    } else {
        match scan_digits(s.drop_last()) {
            Err(k) => Err(k),
            Ok(v) => if !is_digit(s.last()) {
                Err(IntErrorKind::InvalidDigit)
            } else if v * 10 + digit_value(s.last()) > usize::MAX {
                Err(IntErrorKind::PosOverflow)
            } else {
                Ok(v * 10 + digit_value(s.last()))
            },
        }
    }
}

/// `s` read as a `usize`: an optional `+`, then decimal digits.
pub open spec fn parse_usize(s: Seq<char>) -> Result<usize, IntErrorKind> {
    if s.len() == 0 {
        Err(IntErrorKind::Empty)
    } else if s.len() == 1 && (s[0] == '+' || s[0] == '-') {
        Err(IntErrorKind::InvalidDigit)
    } else {
        let digits = if s[0] == '+' {
            s.drop_first()
        } else {
            s
        };
        match scan_digits(digits) {
            Ok(v) => Ok(v as usize),
            Err(k) => Err(k),
        }
    }
}

/// The characters of `s`, one by one.
pub fn chars_of(s: &str) -> (r: Vec<char>)
    ensures
        r@ == s@,
{
    let n = s.unicode_len();
    let mut r: Vec<char> = Vec::new();
    let mut i: usize = 0;
    while i < n
        invariant
            n == s@.len(),
            i <= n,
            r@ == s@.subrange(0, i as int),
        decreases n - i,
    {
        r.push(s.get_char(i));
        i = i + 1;
    }
    assert(r@ =~= s@);
    r
}

/// A new string holding `v[lo..hi]`.
pub fn string_of(v: &Vec<char>, lo: usize, hi: usize) -> (r: String)
    requires
        lo <= hi <= v@.len(),
    ensures
        r@ == v@.subrange(lo as int, hi as int),
{
    let mut r = String::new();
    let mut i: usize = lo;
    while i < hi
        invariant
            lo <= i <= hi <= v@.len(),
            r@ == v@.subrange(lo as int, i as int),
        decreases hi - i,
    {
        push_char(&mut r, v[i]);
        assert(v@.subrange(lo as int, i + 1) =~= v@.subrange(lo as int, i as int) + seq![v@[i as int]]);
        i = i + 1;
    }
    r
}

/// Relies on `String::push`: appends the one character `c` to `s`.
#[verifier::external_body]
fn push_char(s: &mut String, c: char)
    ensures
        final(s)@ == old(s)@ + seq![c],
{
    s.push(c)
}

pub fn find_char(v: &Vec<char>, lo: usize, hi: usize, c: char) -> (r: Option<usize>)
    requires
        lo <= hi <= v@.len(),
    ensures
        r == (match find_first(v@.subrange(lo as int, hi as int), c) {
            Some(i) => Some((i + lo) as usize),
            None => None::<usize>,
        }),
        match r {
            Some(i) => lo <= i < hi && v@[i as int] == c && lacks(v@.subrange(lo as int, i as int), c),
            None => lacks(v@.subrange(lo as int, hi as int), c),
        },
{
    let mut i: usize = lo;
    while i < hi
        invariant
            lo <= i <= hi <= v@.len(),
            lacks(v@.subrange(lo as int, i as int), c),
            find_first(v@.subrange(lo as int, hi as int), c) == (match find_first(
                v@.subrange(i as int, hi as int),
                c,
            ) {
                Some(j) => Some(j + (i - lo)),
                None => None::<int>,
            }),
        decreases hi - i,
    {
        if v[i] == c {
            return Some(i);
        }
        assert(v@.subrange(i as int, hi as int).drop_first() =~= v@.subrange(i + 1, hi as int));
        assert(v@.subrange(lo as int, i + 1) =~= v@.subrange(lo as int, i as int) + seq![v@[i as int]]);
        i = i + 1;
    }
    None
}

pub fn find_last_char(v: &Vec<char>, lo: usize, hi: usize, c: char) -> (r: Option<usize>)
    requires
        lo <= hi <= v@.len(),
    ensures
        r == (match find_last(v@.subrange(lo as int, hi as int), c) {
            Some(i) => Some((i + lo) as usize),
            None => None::<usize>,
        }),
        match r {
            Some(i) => lo <= i < hi && v@[i as int] == c,
            None => true,
        },
{
    let mut i: usize = hi;
    while i > lo
        invariant
            lo <= i <= hi <= v@.len(),
            find_last(v@.subrange(lo as int, hi as int), c) == find_last(
                v@.subrange(lo as int, i as int),
                c,
            ),
        decreases i,
    {
        if v[i - 1] == c {
            return Some(i - 1);
        }
        assert(v@.subrange(lo as int, i as int).drop_last() =~= v@.subrange(lo as int, i - 1));
        i = i - 1;
    }
    None
}

/// Bounds of `v[lo..hi]` with leading and trailing whitespace left out.
pub fn trim_bounds(v: &Vec<char>, lo: usize, hi: usize) -> (r: (usize, usize))
    requires
        lo <= hi <= v@.len(),
    ensures
        lo <= r.0 <= r.1 <= hi,
        v@.subrange(r.0 as int, r.1 as int) == trim(v@.subrange(lo as int, hi as int)),
{
    let mut a: usize = lo;
    while a < hi && char_is_whitespace(v[a])
        invariant
            lo <= a <= hi <= v@.len(),
            trim_start(v@.subrange(lo as int, hi as int)) == trim_start(
                v@.subrange(a as int, hi as int),
            ),
        decreases hi - a,
    {
        assert(v@.subrange(a as int, hi as int).drop_first() =~= v@.subrange(a + 1, hi as int));
        a = a + 1;
    }
    assert(trim_start(v@.subrange(a as int, hi as int)) == v@.subrange(a as int, hi as int));
    let mut b: usize = hi;
    while b > a && char_is_whitespace(v[b - 1])
        invariant
            lo <= a <= b <= hi <= v@.len(),
            trim_end(v@.subrange(a as int, hi as int)) == trim_end(
                v@.subrange(a as int, b as int),
            ),
        decreases b,
    {
        assert(v@.subrange(a as int, b as int).drop_last() =~= v@.subrange(a as int, b - 1));
        b = b - 1;
    }
    (a, b)
}

pub fn digit_of(c: char) -> (r: Option<usize>)
    ensures
        r is Some <==> is_digit(c),
        r is Some ==> r->0 == digit_value(c) && r->0 < 10,
{
    match c {
        '0' => Some(0),
        '1' => Some(1),
        '2' => Some(2),
        '3' => Some(3),
        '4' => Some(4),
        '5' => Some(5),
        '6' => Some(6),
        '7' => Some(7),
        '8' => Some(8),
        '9' => Some(9),
        _ => None,
    }
}

/// Reads `v[lo..hi]` as a `usize`, as `usize::from_str` does.
pub fn parse_usize_in(v: &Vec<char>, lo: usize, hi: usize) -> (r: Result<usize, IntErrorKind>)
    requires
        lo <= hi <= v@.len(),
    ensures
        r == parse_usize(v@.subrange(lo as int, hi as int)),
{
    let ghost s = v@.subrange(lo as int, hi as int);
    if lo == hi {
        return Err(IntErrorKind::Empty);
    }
    if hi - lo == 1 && (v[lo] == '+' || v[lo] == '-') {
        return Err(IntErrorKind::InvalidDigit);
    }
    let start: usize = if v[lo] == '+' {
        lo + 1
    } else {
        lo
    };
    assert(start == lo + 1 ==> s.drop_first() =~= v@.subrange(start as int, hi as int));
    assert(start == lo ==> s =~= v@.subrange(start as int, hi as int));
    assert(parse_usize(s) == (match scan_digits(v@.subrange(start as int, hi as int)) {
        Ok(x) => Ok(x as usize),
        Err(k) => Err::<usize, IntErrorKind>(k),
    }));
    let mut acc: usize = 0;
    let mut i: usize = start;
    while i < hi
        invariant
            start <= i <= hi <= v@.len(),
            parse_usize(v@.subrange(lo as int, hi as int)) == (match scan_digits(
                v@.subrange(start as int, hi as int),
            ) {
                Ok(x) => Ok(x as usize),
                Err(k) => Err::<usize, IntErrorKind>(k),
            }),
            scan_digits(v@.subrange(start as int, i as int)) == Ok::<nat, IntErrorKind>(acc as nat),
            scan_digits(v@.subrange(start as int, hi as int)) is Ok ==> scan_digits(
                v@.subrange(start as int, i as int),
            ) is Ok,
        decreases hi - i,
    {
        let ghost t = v@.subrange(start as int, i + 1);
        assert(t.drop_last() =~= v@.subrange(start as int, i as int));
        match digit_of(v[i]) {
            None => {
                proof {
                    assert(v@.subrange(start as int, hi as int).subrange(0, (i + 1 - start) as int) =~= t);
                    lemma_scan_err_extends(v@.subrange(start as int, hi as int), (i + 1 - start) as int);
                }
                return Err(IntErrorKind::InvalidDigit);
            },
            Some(d) => {
                if acc > (usize::MAX - d) / 10 {
                    assert(acc * 10 + d > usize::MAX) by (nonlinear_arith)
                        requires
                            acc > (usize::MAX - d) / 10,
                            d < 10,
                    ;
                    proof {
                        assert(v@.subrange(start as int, hi as int).subrange(0, (i + 1 - start) as int) =~= t);
                        lemma_scan_err_extends(v@.subrange(start as int, hi as int), (i + 1 - start) as int);
                    }
                    return Err(IntErrorKind::PosOverflow);
                }
                assert(acc * 10 + d <= usize::MAX) by (nonlinear_arith)
                    requires
                        acc <= (usize::MAX - d) / 10,
                        d < 10,
                ;
                acc = acc * 10 + d;
            },
        }
        proof {
            if scan_digits(v@.subrange(start as int, hi as int)) is Ok {
                lemma_scan_ok_prefix(v@.subrange(start as int, hi as int), (i + 1 - start) as int);
                assert(v@.subrange(start as int, hi as int).subrange(0, (i + 1 - start) as int) =~= t);
            }
        }
        i = i + 1;
    }
    Ok(acc)
}

/// An error in a prefix of the digits is the error of the whole.
proof fn lemma_scan_err_extends(s: Seq<char>, k: int)
    requires
        0 <= k <= s.len(),
        scan_digits(s.subrange(0, k)) is Err,
    ensures
        scan_digits(s) == scan_digits(s.subrange(0, k)),
    decreases s.len() - k,
{
    if k < s.len() {
        let t = s.subrange(0, k + 1);
        assert(t.drop_last() =~= s.subrange(0, k));
        lemma_scan_err_extends(s, k + 1);
    } else {
        assert(s.subrange(0, k) =~= s);
    }
}

/// Where the whole reads without error, so does every prefix.
proof fn lemma_scan_ok_prefix(s: Seq<char>, k: int)
    requires
        0 <= k <= s.len(),
        scan_digits(s) is Ok,
    ensures
        scan_digits(s.subrange(0, k)) is Ok,
    decreases s.len() - k,
{
    if k < s.len() {
        lemma_scan_ok_prefix(s, k + 1);
        let t = s.subrange(0, k + 1);
        assert(t.drop_last() =~= s.subrange(0, k));
    } else {
        assert(s.subrange(0, k) =~= s);
    }
}

/// Appends the decimal digit `d` to `out`.
fn push_digit(out: &mut String, d: usize)
    requires
        d < 10,
    ensures
        final(out)@ == old(out)@ + seq![digit_char(d as nat)],
{
    let c = match d {
        0 => '0',
        1 => '1',
        2 => '2',
        3 => '3',
        4 => '4',
        5 => '5',
        6 => '6',
        7 => '7',
        8 => '8',
        _ => '9',
    };
    push_char(out, c);
}

/// Appends the decimal text of `n` to `out`.
pub fn write_decimal(out: &mut String, n: u64)
    ensures
        final(out)@ == old(out)@ + decimal(n as nat),
    decreases n,
{
    if n >= 10 {
        write_decimal(out, n / 10);
    }
    push_digit(out, (n % 10) as usize);
    assert(n < 10 ==> n % 10 == n);
    assert(final(out)@ =~= old(out)@ + decimal(n as nat));
}

/// The digits of a number are digits, and the text is never empty.
pub proof fn lemma_decimal_digits(n: nat)
    ensures
        decimal(n).len() > 0,
        forall|i: int| 0 <= i < decimal(n).len() ==> is_digit(#[trigger] decimal(n)[i]),
    decreases n,
{
    if n >= 10 {
        lemma_decimal_digits(n / 10);
    }
}

/// Reading the decimal text of a `usize` gives the number back.
pub proof fn lemma_parse_decimal(n: usize)
    ensures
        parse_usize(decimal(n as nat)) == Ok::<usize, IntErrorKind>(n),
{
    lemma_decimal_digits(n as nat);
    lemma_scan_decimal(n as nat);
}

proof fn lemma_scan_decimal(n: nat)
    requires
        n <= usize::MAX,
    ensures
        scan_digits(decimal(n)) == Ok::<nat, IntErrorKind>(n),
    decreases n,
{
    let s = decimal(n);
    if n < 10 {
        lemma_digit_char(n);
        assert(s.drop_last() =~= Seq::<char>::empty());
        assert(scan_digits(Seq::<char>::empty()) == Ok::<nat, IntErrorKind>(0));
        assert(s.last() == digit_char(n));
    } else {
        lemma_scan_decimal(n / 10);
        lemma_digit_char(n % 10);
        assert((n / 10) * 10 + n % 10 == n) by (nonlinear_arith);
        assert(s.drop_last() =~= decimal(n / 10));
        assert(s.last() == digit_char(n % 10));
    }
}

pub proof fn lemma_digit_char(d: nat)
    requires
        d < 10,
    ensures
        is_digit(digit_char(d)),
        digit_value(digit_char(d)) == d,
        !is_whitespace(digit_char(d)),
{
    assert(d == 0 || d == 1 || d == 2 || d == 3 || d == 4 || d == 5 || d == 6 || d == 7 || d
        == 8 || d == 9);
}

/// What `find_last` returns: the index of a `c` with none after it, or none at all.
pub proof fn lemma_find_last(s: Seq<char>, c: char)
    ensures
        match find_last(s, c) {
            Some(i) => 0 <= i < s.len() && s[i] == c && lacks(s.subrange(i + 1, s.len() as int), c),
            None => lacks(s, c),
        },
    decreases s.len(),
{
    if s.len() > 0 && s.last() != c {
        lemma_find_last(s.drop_last(), c);
        match find_last(s.drop_last(), c) {
            Some(i) => {
                let tail = s.subrange(i + 1, s.len() as int);
                assert forall|j: int| 0 <= j < tail.len() implies #[trigger] tail[j] != c by {
                    if i + 1 + j < s.len() - 1 {
                        assert(s.drop_last().subrange(i + 1, s.len() - 1)[j] != c);
                    }
                }
            },
            None => {
                assert forall|j: int| 0 <= j < s.len() implies s[j] != c by {
                    if j < s.len() - 1 {
                        assert(s.drop_last()[j] != c);
                    }
                }
            },
        }
    }
}

/// What `find_first` returns: the index of a `c` with none before it, or none at all.
pub proof fn lemma_find_first(s: Seq<char>, c: char)
    ensures
        match find_first(s, c) {
            Some(i) => 0 <= i < s.len() && s[i] == c && lacks(s.subrange(0, i), c),
            None => lacks(s, c),
        },
    decreases s.len(),
{
    if s.len() > 0 && s[0] != c {
        lemma_find_first(s.drop_first(), c);
        match find_first(s.drop_first(), c) {
            Some(i) => {
                let head = s.subrange(0, i + 1);
                assert forall|j: int| 0 <= j < i + 1 implies #[trigger] head[j] != c by {
                    if j > 0 {
                        assert(s.drop_first().subrange(0, i)[j - 1] != c);
                    }
                }
            },
            None => {
                assert forall|j: int| 0 <= j < s.len() implies s[j] != c by {
                    if j > 0 {
                        assert(s.drop_first()[j - 1] != c);
                    }
                }
            },
        }
    }
}

/// Where `v[start..end]` holds no `c` and a `c` stands just before it, that
/// `c` is the last one of `v[lo..end]`.
pub proof fn lemma_last_sep(v: Seq<char>, lo: int, start: int, end: int, c: char)
    requires
        0 <= lo <= start <= end <= v.len(),
        lacks(v.subrange(start, end), c),
        start > lo ==> v[start - 1] == c,
    ensures
        start == lo ==> find_last(v.subrange(lo, end), c) is None,
        start > lo ==> find_last(v.subrange(lo, end), c) == Some(start - 1 - lo),
        start > lo ==> v.subrange(lo, end).subrange(0, start - 1 - lo) == v.subrange(lo, start - 1),
        v.subrange(lo, end).subrange(start - lo, end - lo) == v.subrange(start, end),
{
    let s = v.subrange(lo, end);
    lemma_find_last(s, c);
    assert(s.subrange(start - lo, end - lo) =~= v.subrange(start, end));
    if start > lo {
        assert(s.subrange(0, start - 1 - lo) =~= v.subrange(lo, start - 1));
        match find_last(s, c) {
            Some(i) => {
                if i < start - 1 - lo {
                    assert(s.subrange(i + 1, s.len() as int)[start - 1 - lo - (i + 1)] == c);
                } else if i > start - 1 - lo {
                    assert(v.subrange(start, end)[i - (start - lo)] == c);
                }
            },
            None => {
                assert(s[start - 1 - lo] == c);
            },
        }
    } else {
        match find_last(s, c) {
            Some(i) => {
                assert(v.subrange(start, end)[i] == c);
            },
            None => {},
        }
    }
}


/// The pieces of `s` between the characters `c`, each trimmed.
pub open spec fn split_trim(s: Seq<char>, c: char) -> Seq<Seq<char>>
    decreases s.len(),
{
    match find_last(s, c) {
        None => seq![trim(s)],
        Some(i) => if 0 <= i < s.len() {
            split_trim(s.subrange(0, i), c).push(trim(s.subrange(i + 1, s.len() as int)))
        } else {
            Seq::empty()
        },
    }
}

/// The bounds of the pieces of `v[lo..hi]` between the characters `c`, each
/// trimmed.
pub fn split_bounds(v: &Vec<char>, lo: usize, hi: usize, c: char) -> (r: Vec<(usize, usize)>)
    requires
        lo <= hi <= v@.len(),
    ensures
        r@.len() == split_trim(v@.subrange(lo as int, hi as int), c).len(),
        forall|k: int|
            0 <= k < r@.len() ==> lo <= (#[trigger] r@[k]).0 <= r@[k].1 <= hi && v@.subrange(
                r@[k].0 as int,
                r@[k].1 as int,
            ) == split_trim(v@.subrange(lo as int, hi as int), c)[k],
{
    let mut out: Vec<(usize, usize)> = Vec::new();
    let mut start: usize = lo;
    loop
        invariant
            lo <= start <= hi <= v@.len(),
            start == lo ==> out@.len() == 0,
            start > lo ==> v@[start - 1] == c && out@.len() == split_trim(
                v@.subrange(lo as int, start - 1),
                c,
            ).len(),
            start > lo ==> forall|k: int|
                0 <= k < out@.len() ==> lo <= (#[trigger] out@[k]).0 <= out@[k].1 <= hi
                    && v@.subrange(out@[k].0 as int, out@[k].1 as int) == split_trim(
                    v@.subrange(lo as int, start - 1),
                    c,
                )[k],
        decreases hi - start,
    {
        let next = find_char(v, start, hi, c);
        let end: usize = match next {
            Some(j) => j,
            None => hi,
        };
        proof {
            lemma_last_sep(v@, lo as int, start as int, end as int, c);
        }
        let ghost before = out@;
        let (a, b) = trim_bounds(v, start, end);
        out.push((a, b));
        let ghost prefix = v@.subrange(lo as int, end as int);
        assert(split_trim(prefix, c) =~= (if start == lo {
            Seq::<Seq<char>>::empty()
        } else {
            split_trim(v@.subrange(lo as int, start - 1), c)
        }).push(v@.subrange(a as int, b as int)));
        match next {
            None => {
                assert(prefix =~= v@.subrange(lo as int, hi as int));
                return out;
            },
            Some(j) => {
                start = j + 1;
            },
        }
    }
}


/// Index of the first whitespace character of `s`.
pub open spec fn first_ws(s: Seq<char>) -> Option<int>
    decreases s.len(),
{
    if s.len() == 0 {
        None
    } else if is_whitespace(s[0]) {
        Some(0)
    } else {
        match first_ws(s.drop_first()) {
            Some(i) => Some(i + 1),
            None => None,
        }
    }
}

/// Where `first_ws` finds something, it is inside `s` and is whitespace.
pub proof fn lemma_first_ws(s: Seq<char>)
    ensures
        match first_ws(s) {
            Some(i) => 0 <= i < s.len() && is_whitespace(s[i]),
            None => true,
        },
    decreases s.len(),
{
    if s.len() > 0 && !is_whitespace(s[0]) {
        lemma_first_ws(s.drop_first());
    }
}

pub fn find_whitespace(v: &Vec<char>, lo: usize, hi: usize) -> (r: Option<usize>)
    requires
        lo <= hi <= v@.len(),
    ensures
        r == (match first_ws(v@.subrange(lo as int, hi as int)) {
            Some(i) => Some((i + lo) as usize),
            None => None::<usize>,
        }),
        match r {
            Some(i) => lo <= i < hi,
            None => true,
        },
{
    let mut i: usize = lo;
    while i < hi
        invariant
            lo <= i <= hi <= v@.len(),
            first_ws(v@.subrange(lo as int, hi as int)) == (match first_ws(
                v@.subrange(i as int, hi as int),
            ) {
                Some(j) => Some(j + (i - lo)),
                None => None::<int>,
            }),
        decreases hi - i,
    {
        if char_is_whitespace(v[i]) {
            return Some(i);
        }
        assert(v@.subrange(i as int, hi as int).drop_first() =~= v@.subrange(i + 1, hi as int));
        i = i + 1;
    }
    None
}

/// Whether `v[lo..hi]` holds exactly the characters of `lit`.
pub fn equals_at(v: &Vec<char>, lo: usize, hi: usize, lit: &str) -> (r: bool)
    requires
        lo <= hi <= v@.len(),
    ensures
        r == (v@.subrange(lo as int, hi as int) == lit@),
{
    let n = lit.unicode_len();
    if hi - lo != n {
        return false;
    }
    let mut i: usize = 0;
    while i < n
        invariant
            n == lit@.len(),
            hi - lo == n,
            lo <= hi <= v@.len(),
            i <= n,
            forall|j: int| 0 <= j < i ==> v@[lo + j] == lit@[j],
        decreases n - i,
    {
        if v[lo + i] != lit.get_char(i) {
            assert(v@.subrange(lo as int, hi as int)[i as int] != lit@[i as int]);
            return false;
        }
        i = i + 1;
    }
    assert(v@.subrange(lo as int, hi as int) =~= lit@);
    true
}

} // verus!
