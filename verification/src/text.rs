//! Character-level helpers shared by the parsers of this crate: whitespace
//! splitting and decimal parsing with the rules of Rust's standard library.
use vstd::prelude::*;

verus! {

broadcast use vstd::string::axiom_spec_iter;

/// The characters of `s`, in order.
pub fn chars_of(s: &str) -> (v: Vec<char>)
    ensures
        v@ == s@,
{
    let mut v: Vec<char> = Vec::new();
    for c in it: s.chars()
        invariant
            v@ == it.seq().take(it.index() as int),
            it.seq() == s@,
    {
        v.push(c);
    }
    v
}

/// Whether `a` and `b` hold the same characters.
pub fn str_eq(a: &str, b: &str) -> (r: bool)
    ensures
        r == (a@ == b@),
{
    let x = chars_of(a);
    let y = chars_of(b);
    if x.len() != y.len() {
        return false;
    }
    let mut i: usize = 0;
    while i < x.len()
        invariant
            x@ == a@,
            y@ == b@,
            x@.len() == y@.len(),
            i <= x@.len(),
            forall|k: int| 0 <= k < i ==> x@[k] == y@[k],
        decreases x@.len() - i,
    {
        if x[i] != y[i] {
            return false;
        }
        i = i + 1;
    }
    assert(x@ =~= y@);
    true
}

/// Unicode `White_Space`, the set that `char::is_whitespace` tests.
pub open spec fn is_ws(c: char) -> bool {
    let u = c as u32;
    ||| 0x09 <= u <= 0x0D
    ||| u == 0x20
    ||| u == 0x85
    ||| u == 0xA0
    ||| u == 0x1680
    ||| 0x2000 <= u <= 0x200A
    ||| u == 0x2028
    ||| u == 0x2029
    ||| u == 0x202F
    ||| u == 0x205F
    ||| u == 0x3000
}

pub fn is_whitespace(c: char) -> (b: bool)
    ensures
        b == is_ws(c),
{
    let u = c as u32;
    (0x09 <= u && u <= 0x0D) || u == 0x20 || u == 0x85 || u == 0xA0 || u == 0x1680 || (0x2000
        <= u && u <= 0x200A) || u == 0x2028 || u == 0x2029 || u == 0x202F || u == 0x205F || u
        == 0x3000
}

/// Length of the run of non-whitespace characters that starts `s`.
pub open spec fn token_len(s: Seq<char>) -> nat
    decreases s.len(),
{
    if s.len() == 0 || is_ws(s[0]) {
        0
    } else {
        1 + token_len(s.drop_first())
    }
}

/// The whitespace-separated fields of `s`, as `str::split_whitespace` yields them.
pub open spec fn split_ws(s: Seq<char>) -> Seq<Seq<char>>
    decreases s.len(),
{
    if s.len() == 0 {
        Seq::empty()
    } else if is_ws(s[0]) {
        split_ws(s.drop_first())
    } else {
        let t = token_len(s);
        if 0 < t <= s.len() {
            seq![s.take(t as int)] + split_ws(s.skip(t as int))
        } else {
            Seq::empty()
        }
    }
}

/// Scanning `s` from `i` up to the first whitespace gives the token length.
proof fn lemma_token_len_scan(s: Seq<char>, i: int, j: int)
    requires
        0 <= i <= j <= s.len(),
        forall|k: int| i <= k < j ==> !is_ws(#[trigger] s[k]),
        j == s.len() || is_ws(s[j]),
    ensures
        token_len(s.skip(i)) == j - i,
    decreases j - i,
{
    if i < j {
        lemma_token_len_scan(s, i + 1, j);
        assert(s.skip(i).drop_first() =~= s.skip(i + 1));
    } else {
        if j < s.len() {
            assert(s.skip(i)[0] == s[i]);
        }
    }
}

/// Decimal value of a run of ASCII digits.
pub open spec fn digits_value(s: Seq<char>) -> nat
    decreases s.len(),
{
    if s.len() == 0 {
        0
    } else {
        digits_value(s.drop_last()) * 10 + ((s.last() as u32) - ('0' as u32)) as nat
    }
}

pub open spec fn is_digit(c: char) -> bool {
    '0' <= c <= '9'
}

pub open spec fn all_digits(s: Seq<char>) -> bool {
    forall|k: int| 0 <= k < s.len() ==> is_digit(#[trigger] s[k])
}

/// What `str::parse::<u64>` returns: an optional `+`, then at least one
/// ASCII digit, and a value that fits in 64 bits.
pub open spec fn parse_u64_spec(s: Seq<char>) -> Option<u64> {
    let d = if s.len() > 0 && s[0] == '+' {
        s.drop_first()
    } else {
        s
    };
    if d.len() > 0 && all_digits(d) && digits_value(d) <= u64::MAX {
        Some(digits_value(d) as u64)
    } else {
        None
    }
}

/// What `str::parse::<u32>` returns.
pub open spec fn parse_u32_spec(s: Seq<char>) -> Option<u32> {
    match parse_u64_spec(s) {
        Some(v) => if v <= u32::MAX {
            Some(v as u32)
        } else {
            None
        },
        None => None,
    }
}

proof fn lemma_digits_value_push(s: Seq<char>, c: char)
    ensures
        digits_value(s.push(c)) == digits_value(s) * 10 + ((c as u32) - ('0' as u32)) as nat,
{
    assert(s.push(c).drop_last() =~= s);
}

proof fn lemma_digits_value_monotone(s: Seq<char>, n: int)
    requires
        0 <= n <= s.len(),
        all_digits(s),
    ensures
        digits_value(s.take(n)) <= digits_value(s),
    decreases s.len() - n,
{
    if n < s.len() {
        lemma_digits_value_monotone(s, n + 1);
        assert(s.take(n + 1).drop_last() =~= s.take(n));
        assert(is_digit(s[n]));
    } else {
        assert(s.take(n) =~= s);
    }
}

/// Parses `s[from..to]` as `str::parse::<u64>` does.
pub fn parse_u64_range(s: &Vec<char>, from: usize, to: usize) -> (r: Option<u64>)
    requires
        from <= to <= s@.len(),
    ensures
        r == parse_u64_spec(s@.subrange(from as int, to as int)),
{
    let ghost t = s@.subrange(from as int, to as int);
    let mut start = from;
    if start < to && s[start] == '+' {
        start = start + 1;
    }
    let ghost d = s@.subrange(start as int, to as int);
    assert(d =~= (if t.len() > 0 && t[0] == '+' { t.drop_first() } else { t }));
    if start == to {
        return None;
    }
    let mut value: u64 = 0;
    let mut i = start;
    while i < to
        invariant
            start <= i <= to <= s@.len(),
            d == s@.subrange(start as int, to as int),
            t == s@.subrange(from as int, to as int),
            d == (if t.len() > 0 && t[0] == '+' { t.drop_first() } else { t }),
            d.len() > 0,
            all_digits(s@.subrange(start as int, i as int)),
            value == digits_value(s@.subrange(start as int, i as int)),
        decreases to - i,
    {
        let c = s[i];
        if !('0' <= c && c <= '9') {
            proof {
                assert(d[i - start] == c);
                assert(!is_digit(d[i - start]));
                assert(!all_digits(d));
            }
            return None;
        }
        let digit = ((c as u32) - ('0' as u32)) as u64;
        proof {
            assert(s@.subrange(start as int, i + 1) =~= s@.subrange(start as int, i as int).push(c));
            lemma_digits_value_push(s@.subrange(start as int, i as int), c);
        }
        let m = value.checked_mul(10);
        if m.is_none() {
            proof {
                assert(s@.subrange(start as int, i + 1) =~= d.take(i + 1 - start));
                if all_digits(d) {
                    lemma_digits_value_monotone(d, i + 1 - start);
                }
            }
            return None;
        }
        let a = m.unwrap().checked_add(digit);
        if a.is_none() {
            proof {
                assert(s@.subrange(start as int, i + 1) =~= d.take(i + 1 - start));
                if all_digits(d) {
                    lemma_digits_value_monotone(d, i + 1 - start);
                }
            }
            return None;
        }
        value = a.unwrap();
        i = i + 1;
    }
    Some(value)
}

/// The `(start, end)` character ranges of the whitespace-separated fields of
/// `s[from..]`, in order.
pub fn split_ws_ranges(s: &Vec<char>, from: usize) -> (ranges: Vec<(usize, usize)>)
    requires
        from <= s@.len(),
    ensures
        ranges@.len() == split_ws(s@.skip(from as int)).len(),
        forall|k: int|
            0 <= k < ranges@.len() ==> {
                let (a, b) = #[trigger] ranges@[k];
                &&& from <= a <= b <= s@.len()
                &&& s@.subrange(a as int, b as int) == split_ws(s@.skip(from as int))[k]
            },
{
    let mut ranges: Vec<(usize, usize)> = Vec::new();
    let ghost mut acc: Seq<Seq<char>> = Seq::empty();
    let mut i = from;
    while i < s.len()
        invariant
            from <= i <= s@.len(),
            split_ws(s@.skip(from as int)) == acc + split_ws(s@.skip(i as int)),
            ranges@.len() == acc.len(),
            forall|k: int|
                0 <= k < ranges@.len() ==> {
                    let (a, b) = #[trigger] ranges@[k];
                    &&& from <= a <= b <= i
                    &&& s@.subrange(a as int, b as int) == acc[k]
                },
        decreases s@.len() - i,
    {
        if is_whitespace(s[i]) {
            proof {
                assert(s@.skip(i as int).drop_first() =~= s@.skip(i + 1));
                assert(s@.skip(i as int)[0] == s@[i as int]);
            }
            i = i + 1;
        } else {
            let mut j = i;
            while j < s.len() && !is_whitespace(s[j])
                invariant
                    i <= j <= s@.len(),
                    forall|k: int| i <= k < j ==> !is_ws(#[trigger] s@[k]),
                decreases s@.len() - j,
            {
                j = j + 1;
            }
            proof {
                lemma_token_len_scan(s@, i as int, j as int);
                let r = s@.skip(i as int);
                assert(r[0] == s@[i as int]);
                assert(r.take(j - i) =~= s@.subrange(i as int, j as int));
                assert(r.skip(j - i) =~= s@.skip(j as int));
                assert(split_ws(r) == seq![s@.subrange(i as int, j as int)] + split_ws(s@.skip(j as int)));
                assert(acc + split_ws(r) =~= acc.push(s@.subrange(i as int, j as int)) + split_ws(s@.skip(j as int)));
                acc = acc.push(s@.subrange(i as int, j as int));
            }
            ranges.push((i, j));
            i = j;
        }
    }
    proof {
        assert(s@.skip(i as int) =~= Seq::<char>::empty());
        assert(acc + split_ws(s@.skip(i as int)) =~= acc);
    }
    ranges
}

/// ASCII upper-casing, as `str::to_ascii_uppercase` does it: `a`..=`z`
/// become `A`..=`Z`, every other character stays.
pub open spec fn ascii_upper_char(c: char) -> char {
    if 'a' <= c <= 'z' {
        ((c as u32) - 32) as char
    } else {
        c
    }
}

pub open spec fn ascii_upper(s: Seq<char>) -> Seq<char> {
    s.map_values(|c: char| ascii_upper_char(c))
}

pub fn to_ascii_upper_chars(s: &Vec<char>) -> (r: Vec<char>)
    ensures
        r@ == ascii_upper(s@),
{
    let mut r: Vec<char> = Vec::new();
    let mut i: usize = 0;
    while i < s.len()
        invariant
            i <= s@.len(),
            r@ == ascii_upper(s@.take(i as int)),
        decreases s@.len() - i,
    {
        let c = s[i];
        let u = if 'a' <= c && c <= 'z' {
            ((c as u8) - 32) as char
        } else {
            c
        };
        r.push(u);
        proof {
            assert(ascii_upper(s@.take(i + 1)) =~= ascii_upper(s@.take(i as int)).push(
                ascii_upper_char(c),
            ));
        }
        i = i + 1;
    }
    proof {
        assert(s@.take(i as int) =~= s@);
    }
    r
}

/// `s` with whitespace removed from both ends, as `str::trim` returns it.
pub open spec fn trim_spec(s: Seq<char>) -> Seq<char>
    decreases s.len(),
{
    if s.len() > 0 && is_ws(s[0]) {
        trim_spec(s.drop_first())
    } else if s.len() > 0 && is_ws(s.last()) {
        trim_spec(s.drop_last())
    } else {
        s
    }
}

proof fn lemma_trim_range(s: Seq<char>, a: int, b: int)
    requires
        0 <= a <= b <= s.len(),
        forall|k: int| 0 <= k < a ==> is_ws(#[trigger] s[k]),
        forall|k: int| b <= k < s.len() ==> is_ws(#[trigger] s[k]),
        a < b ==> !is_ws(s[a]) && !is_ws(s[b - 1]),
    ensures
        trim_spec(s) == s.subrange(a, b),
    decreases s.len(),
{
    if s.len() > 0 && is_ws(s[0]) {
        if a == 0 {
            assert(b == 0);
            assert(forall|k: int| 0 <= k < s.len() - 1 ==> #[trigger] s.drop_first()[k] == s[k + 1]);
            lemma_trim_range(s.drop_first(), 0, 0);
            assert(s.drop_first().subrange(0, 0) =~= s.subrange(a, b));
        } else {
            assert(forall|k: int| 0 <= k < s.len() - 1 ==> #[trigger] s.drop_first()[k] == s[k + 1]);
            lemma_trim_range(s.drop_first(), a - 1, b - 1);
            assert(s.drop_first().subrange(a - 1, b - 1) =~= s.subrange(a, b));
        }
    } else if s.len() > 0 && is_ws(s.last()) {
        if b == s.len() {
            assert(a == b);
        }
        let t = s.drop_last();
        if b == s.len() {
            assert(forall|k: int| 0 <= k < t.len() ==> #[trigger] t[k] == s[k]);
            lemma_trim_range(t, t.len() as int, t.len() as int);
            assert(t.subrange(t.len() as int, t.len() as int) =~= s.subrange(a, b));
        } else {
            assert(forall|k: int| 0 <= k < t.len() ==> #[trigger] t[k] == s[k]);
            lemma_trim_range(t, a, b);
            assert(t.subrange(a, b) =~= s.subrange(a, b));
        }
    } else {
        if s.len() > 0 {
            assert(a == 0 && b == s.len());
        }
        assert(s.subrange(a, b) =~= s);
    }
}

/// The `(start, end)` character range of `str::trim` applied to `s`.
pub fn trim_range(s: &Vec<char>) -> (r: (usize, usize))
    ensures
        r.0 <= r.1 <= s@.len(),
        s@.subrange(r.0 as int, r.1 as int) == trim_spec(s@),
{
    let mut a: usize = 0;
    while a < s.len() && is_whitespace(s[a])
        invariant
            a <= s@.len(),
            forall|k: int| 0 <= k < a ==> is_ws(#[trigger] s@[k]),
        decreases s@.len() - a,
    {
        a = a + 1;
    }
    let mut b: usize = s.len();
    while b > a && is_whitespace(s[b - 1])
        invariant
            a <= b <= s@.len(),
            forall|k: int| b <= k < s@.len() ==> is_ws(#[trigger] s@[k]),
        decreases b,
    {
        b = b - 1;
    }
    proof {
        lemma_trim_range(s@, a as int, b as int);
    }
    (a, b)
}

/// ASCII case-insensitive equality, as `str::eq_ignore_ascii_case` tests it.
pub open spec fn eq_ignore_ascii_case_spec(a: Seq<char>, b: Seq<char>) -> bool {
    ascii_upper(a) == ascii_upper(b)
}

/// Whether `s[from..to]`, upper-cased as ASCII, equals `upper`.
pub fn range_upper_eq(s: &Vec<char>, from: usize, to: usize, upper: &Vec<char>) -> (r: bool)
    requires
        from <= to <= s@.len(),
    ensures
        r == (ascii_upper(s@.subrange(from as int, to as int)) == upper@),
{
    let ghost t = s@.subrange(from as int, to as int);
    if to - from != upper.len() {
        assert(ascii_upper(t).len() != upper@.len());
        return false;
    }
    let mut i: usize = 0;
    while i < upper.len()
        invariant
            to - from == upper@.len(),
            from <= to <= s@.len(),
            t == s@.subrange(from as int, to as int),
            i <= upper@.len(),
            forall|k: int| 0 <= k < i ==> ascii_upper_char(#[trigger] t[k]) == upper@[k],
        decreases upper@.len() - i,
    {
        let c = s[from + i];
        let u = if 'a' <= c && c <= 'z' {
            ((c as u8) - 32) as char
        } else {
            c
        };
        assert(t[i as int] == c);
        if u != upper[i] {
            assert(ascii_upper(t)[i as int] != upper@[i as int]);
            return false;
        }
        i = i + 1;
    }
    assert(ascii_upper(t) =~= upper@);
    true
}

/// Whether `s[from..to]` equals `lit`.
pub fn range_eq(s: &Vec<char>, from: usize, to: usize, lit: &Vec<char>) -> (r: bool)
    requires
        from <= to <= s@.len(),
    ensures
        r == (s@.subrange(from as int, to as int) == lit@),
{
    let ghost t = s@.subrange(from as int, to as int);
    if to - from != lit.len() {
        return false;
    }
    let mut i: usize = 0;
    while i < lit.len()
        invariant
            to - from == lit@.len(),
            from <= to <= s@.len(),
            t == s@.subrange(from as int, to as int),
            i <= lit@.len(),
            forall|k: int| 0 <= k < i ==> #[trigger] t[k] == lit@[k],
        decreases lit@.len() - i,
    {
        assert(t[i as int] == s@[from + i]);
        if s[from + i] != lit[i] {
            return false;
        }
        i = i + 1;
    }
    assert(t =~= lit@);
    true
}

/// `pat` occurs in `s` at index `i`.
pub open spec fn occurs_at(s: Seq<char>, pat: Seq<char>, i: int) -> bool {
    0 <= i && i + pat.len() <= s.len() && s.subrange(i, i + pat.len()) == pat
}

/// `pat` occurs somewhere in `s`.
pub open spec fn contains_seq(s: Seq<char>, pat: Seq<char>) -> bool {
    exists|i: int| occurs_at(s, pat, i)
}

/// Whether `pat` occurs in `s`.
pub fn str_contains(s: &str, pat: &str) -> (r: bool)
    ensures
        r == contains_seq(s@, pat@),
{
    let x = chars_of(s);
    let y = chars_of(pat);
    chars_contain(&x, &y)
}

/// Whether the characters `y` occur in the characters `x`.
pub fn chars_contain(x: &Vec<char>, y: &Vec<char>) -> (r: bool)
    ensures
        r == contains_seq(x@, y@),
{
    let ghost s = x@;
    let ghost pat = y@;
    let n = x.len();
    let m = y.len();
    if m > n {
        proof {
            assert forall|i: int| !occurs_at(s, pat, i) by {}
        }
        return false;
    }
    let mut i: usize = 0;
    while i < n - m
        invariant
            x@ == s,
            y@ == pat,
            n == x@.len(),
            m == y@.len(),
            m <= n,
            i <= n - m,
            forall|k: int| 0 <= k < i ==> !occurs_at(s, pat, k),
        decreases n - m - i,
    {
        if range_eq(x, i, i + m, y) {
            assert(occurs_at(s, pat, i as int));
            return true;
        }
        i = i + 1;
    }
    if range_eq(x, i, i + m, y) {
        assert(occurs_at(s, pat, i as int));
        return true;
    }
    proof {
        assert forall|k: int| !occurs_at(s, pat, k) by {
            if 0 <= k < i {
            }
        }
    }
    false
}

} // verus!
