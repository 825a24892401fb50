//! Text helpers: characters of a string, comparisons, splitting and decimal numbers.
use vstd::prelude::*;
use vstd::string::StrSliceExecFns;

verus! {

/// The characters of `s`, in order.
pub fn chars_of(s: &str) -> (r: Vec<char>)
    ensures
        r@ == s@,
{
    broadcast use vstd::string::group_string_axioms;
    let mut r: Vec<char> = Vec::new();
    for c in it: s.chars()
        invariant
            r@ == it.seq().take(it.index() as int),
    {
        r.push(c);
    }
    r
}


/// Whether two character sequences are equal.
pub fn chars_eq(x: &Vec<char>, y: &Vec<char>) -> (r: bool)
    ensures
        r == (x@ == y@),
{
    if x.len() != y.len() {
        return false;
    }
    let mut i: usize = 0;
    while i < x.len()
        invariant
            i <= x.len(),
            x.len() == y.len(),
            forall|j: int| 0 <= j < i ==> x@[j] == y@[j],
        decreases x.len() - i,
    {
        if x[i] != y[i] {
            return false;
        }
        i += 1;
    }
    assert(x@ =~= y@);
    true
}

/// Whether two strings are equal.
pub fn eq_lit(a: &str, b: &str) -> (r: bool)
    ensures
        r == (a@ == b@),
{
    let x = chars_of(a);
    let y = chars_of(b);
    chars_eq(&x, &y)
}


// ---- whitespace and words -----------------------------------------------------------

/// Whether `c` is white space in the sense of Unicode (`char::is_whitespace`).
pub open spec fn is_ws(c: char) -> bool {
    ('\u{9}' <= c && c <= '\u{d}') || c == ' ' || c == '\u{85}' || c == '\u{a0}' || c
        == '\u{1680}' || ('\u{2000}' <= c && c <= '\u{200a}') || c == '\u{2028}' || c
        == '\u{2029}' || c == '\u{202f}' || c == '\u{205f}' || c == '\u{3000}'
}

/// Whether `c` is white space (see [`is_ws`]).
pub fn char_is_ws(c: char) -> (r: bool)
    ensures
        r == is_ws(c),
{
    ('\u{9}' <= c && c <= '\u{d}') || c == ' ' || c == '\u{85}' || c == '\u{a0}' || c
        == '\u{1680}' || ('\u{2000}' <= c && c <= '\u{200a}') || c == '\u{2028}' || c
        == '\u{2029}' || c == '\u{202f}' || c == '\u{205f}' || c == '\u{3000}'
}

/// The first position from `i` on that holds no white space (or the end).
pub open spec fn skip_ws(s: Seq<char>, i: int) -> int
    decreases s.len() - i,
{
    if i < 0 || i >= s.len() {
        i
    } else if is_ws(s[i]) {
        skip_ws(s, i + 1)
    } else {
        i
    }
}

/// The first position from `i` on that holds white space (or the end).
pub open spec fn skip_word(s: Seq<char>, i: int) -> int
    decreases s.len() - i,
{
    if i < 0 || i >= s.len() {
        i
    } else if !is_ws(s[i]) {
        skip_word(s, i + 1)
    } else {
        i
    }
}

/// Where the second white-space separated word of `s` starts and ends, if there is
/// one (as `s.split_whitespace().nth(1)` finds it).
pub open spec fn second_word(s: Seq<char>) -> Option<(int, int)> {
    let a0 = skip_ws(s, 0);
    let b0 = skip_word(s, a0);
    let a1 = skip_ws(s, b0);
    let b1 = skip_word(s, a1);
    if a0 < s.len() && a1 < s.len() {
        Some((a1, b1))
    } else {
        None
    }
}

proof fn lemma_skip_bounds(s: Seq<char>, i: int)
    requires
        0 <= i <= s.len(),
    ensures
        i <= skip_ws(s, i) <= s.len(),
        i <= skip_word(s, i) <= s.len(),
    decreases s.len() - i,
{
    if i < s.len() {
        lemma_skip_bounds(s, i + 1);
    }
}

fn skip_ws_exec(v: &Vec<char>, i: usize) -> (r: usize)
    requires
        i <= v.len(),
    ensures
        r == skip_ws(v@, i as int),
        i <= r <= v.len(),
{
    let mut j = i;
    while j < v.len() && char_is_ws(v[j])
        invariant
            i <= j <= v.len(),
            skip_ws(v@, i as int) == skip_ws(v@, j as int),
        decreases v.len() - j,
    {
        j += 1;
    }
    j
}

fn skip_word_exec(v: &Vec<char>, i: usize) -> (r: usize)
    requires
        i <= v.len(),
    ensures
        r == skip_word(v@, i as int),
        i <= r <= v.len(),
{
    let mut j = i;
    while j < v.len() && !char_is_ws(v[j])
        invariant
            i <= j <= v.len(),
            skip_word(v@, i as int) == skip_word(v@, j as int),
        decreases v.len() - j,
    {
        j += 1;
    }
    j
}

/// Where the second white-space separated word of `v` starts and ends, if there is one.
pub fn second_word_exec(v: &Vec<char>) -> (r: Option<(usize, usize)>)
    ensures
        match r {
            Some((a, b)) => second_word(v@) == Some((a as int, b as int)) && a <= b <= v.len(),
            None => second_word(v@) is None,
        },
{
    let a0 = skip_ws_exec(v, 0);
    let b0 = skip_word_exec(v, a0);
    let a1 = skip_ws_exec(v, b0);
    let b1 = skip_word_exec(v, a1);
    if a0 < v.len() && a1 < v.len() {
        Some((a1, b1))
    } else {
        None
    }
}

// ---- prefixes -----------------------------------------------------------------------

/// Whether `v` starts with the characters of `p`.
pub fn starts_with_lit(v: &Vec<char>, p: &str) -> (r: bool)
    ensures
        r == (p@.len() <= v@.len() && v@.subrange(0, p@.len() as int) == p@),
{
    let q = chars_of(p);
    if q.len() > v.len() {
        return false;
    }
    let mut i: usize = 0;
    while i < q.len()
        invariant
            i <= q.len() <= v.len(),
            q@ == p@,
            forall|j: int| 0 <= j < i ==> v@[j] == q@[j],
        decreases q.len() - i,
    {
        if v[i] != q[i] {
            assert(v@.subrange(0, q@.len() as int)[i as int] != p@[i as int]);
            return false;
        }
        i += 1;
    }
    assert(v@.subrange(0, p@.len() as int) =~= p@);
    true
}

// ---- splitting at a separator -------------------------------------------------------

/// The pieces of `s` between the occurrences of `sep` (as `str::split` gives them):
/// one more than there are separators, empty ones included.
pub open spec fn split_seq(s: Seq<char>, sep: char) -> Seq<Seq<char>>
    decreases s.len(),
{
    if s.len() == 0 {
        seq![Seq::<char>::empty()]
    } else {
        let rest = split_seq(s.drop_last(), sep);
        if s.last() == sep {
            rest.push(Seq::<char>::empty())
        } else {
            rest.update(rest.len() - 1, rest.last().push(s.last()))
        }
    }
}

proof fn lemma_split_nonempty(s: Seq<char>, sep: char)
    ensures
        split_seq(s, sep).len() >= 1,
    decreases s.len(),
{
    if s.len() > 0 {
        lemma_split_nonempty(s.drop_last(), sep);
    }
}

/// A text without the separator is one piece.
pub proof fn lemma_split_single(s: Seq<char>, sep: char)
    requires
        !s.contains(sep),
    ensures
        split_seq(s, sep) == seq![s],
    decreases s.len(),
{
    if s.len() > 0 {
        let d = s.drop_last();
        assert(!d.contains(sep)) by {
            if d.contains(sep) {
                let k = choose|k: int| 0 <= k < d.len() && d[k] == sep;
                assert(s[k] == sep);
            }
        }
        lemma_split_single(d, sep);
        assert(s.last() != sep) by {
            assert(s[s.len() - 1] == s.last());
        }
        assert(d.push(s.last()) =~= s);
    } else {
        assert(s =~= Seq::<char>::empty());
    }
}

/// Splitting `a`, a separator, then `b` gives the pieces of `a` followed by those of
/// `b`.
pub proof fn lemma_split_concat(a: Seq<char>, b: Seq<char>, sep: char)
    ensures
        split_seq(a.push(sep) + b, sep) == split_seq(a, sep) + split_seq(b, sep),
    decreases b.len(),
{
    if b.len() == 0 {
        assert(a.push(sep) + b =~= a.push(sep));
        assert(a.push(sep).drop_last() =~= a);
        assert(split_seq(a.push(sep), sep) =~= split_seq(a, sep).push(Seq::<char>::empty()));
        assert(split_seq(a, sep) + split_seq(b, sep) =~= split_seq(a, sep).push(Seq::<char>::empty()));
    } else {
        let b1 = b.drop_last();
        let c = b.last();
        lemma_split_concat(a, b1, sep);
        lemma_split_nonempty(b1, sep);
        lemma_split_nonempty(a, sep);
        let s = a.push(sep) + b;
        assert(s.drop_last() =~= a.push(sep) + b1);
        assert(s.last() == c);
        let rest = split_seq(a, sep) + split_seq(b1, sep);
        if c == sep {
            assert(rest.push(Seq::<char>::empty()) =~= split_seq(a, sep) + split_seq(b1, sep).push(
                Seq::<char>::empty(),
            ));
        } else {
            let rb = split_seq(b1, sep);
            assert(rest.update(rest.len() - 1, rest.last().push(c)) =~= split_seq(a, sep) + rb.update(
                rb.len() - 1,
                rb.last().push(c),
            ));
        }
    }
}

/// The pieces of `v` between the occurrences of `sep`, as ranges (start, end).
pub fn split_ranges(v: &Vec<char>, sep: char) -> (r: Vec<(usize, usize)>)
    ensures
        r@.len() == split_seq(v@, sep).len(),
        forall|q: int|
            0 <= q < r@.len() ==> (#[trigger] r@[q]).0 <= r@[q].1 <= v@.len() && v@.subrange(
                r@[q].0 as int,
                r@[q].1 as int,
            ) == split_seq(v@, sep)[q],
{
    let mut r: Vec<(usize, usize)> = Vec::new();
    let mut start: usize = 0;
    let mut i: usize = 0;
    proof {
        assert(v@.take(0) =~= Seq::<char>::empty());
        assert(v@.subrange(0, 0) =~= Seq::<char>::empty());
    }
    while i < v.len()
        invariant
            start <= i <= v.len(),
            r@.len() + 1 == split_seq(v@.take(i as int), sep).len(),
            forall|q: int|
                0 <= q < r@.len() ==> (#[trigger] r@[q]).0 <= r@[q].1 <= i && v@.subrange(
                    r@[q].0 as int,
                    r@[q].1 as int,
                ) == split_seq(v@.take(i as int), sep)[q],
            v@.subrange(start as int, i as int) == split_seq(v@.take(i as int), sep).last(),
        decreases v.len() - i,
    {
        let ghost t = v@.take(i as int);
        let ghost t1 = v@.take(i + 1);
        proof {
            assert(t1.drop_last() =~= t);
            assert(t1.last() == v@[i as int]);
            lemma_split_nonempty(t, sep);
        }
        if v[i] == sep {
            r.push((start, i));
            start = i + 1;
            proof {
                assert(v@.subrange(start as int, i + 1) =~= Seq::<char>::empty());
            }
        } else {
            proof {
                assert(v@.subrange(start as int, i + 1) =~= v@.subrange(start as int, i as int).push(
                    v@[i as int],
                ));
            }
        }
        i += 1;
    }
    r.push((start, i));
    proof {
        assert(v@.take(v@.len() as int) =~= v@);
    }
    r
}

/// `p` without a final carriage return.
pub open spec fn strip_cr(p: Seq<char>) -> Seq<char> {
    if p.len() > 0 && p.last() == '\r' {
        p.drop_last()
    } else {
        p
    }
}

/// The lines of `s` (as `str::lines` gives them): split at `\n`, a `\r` before a `\n`
/// dropped, and no empty last line after a final line ending.
pub open spec fn lines_spec(s: Seq<char>) -> Seq<Seq<char>> {
    let ps = split_seq(s, '\n');
    let n = ps.len();
    let body = ps.take(n - 1).map_values(|p: Seq<char>| strip_cr(p));
    if ps[n - 1].len() > 0 {
        body.push(ps[n - 1])
    } else {
        body
    }
}

/// Where each line of `v` starts and ends (see [`lines_spec`]).
pub fn line_ranges(v: &Vec<char>) -> (r: Vec<(usize, usize)>)
    ensures
        r@.len() == lines_spec(v@).len(),
        forall|q: int|
            0 <= q < r@.len() ==> (#[trigger] r@[q]).0 <= r@[q].1 <= v@.len() && v@.subrange(
                r@[q].0 as int,
                r@[q].1 as int,
            ) == lines_spec(v@)[q],
{
    let ps = split_ranges(v, '\n');
    let ghost sp = split_seq(v@, '\n');
    proof {
        lemma_split_nonempty(v@, '\n');
    }
    let n = ps.len();
    let mut r: Vec<(usize, usize)> = Vec::new();
    let mut i: usize = 0;
    while i + 1 < n
        invariant
            i + 1 <= n,
            n == ps@.len(),
            n == sp.len(),
            forall|q: int|
                0 <= q < ps@.len() ==> (#[trigger] ps@[q]).0 <= ps@[q].1 <= v@.len() && v@.subrange(
                    ps@[q].0 as int,
                    ps@[q].1 as int,
                ) == sp[q],
            r@.len() == i,
            forall|q: int|
                0 <= q < i ==> (#[trigger] r@[q]).0 <= r@[q].1 <= v@.len() && v@.subrange(
                    r@[q].0 as int,
                    r@[q].1 as int,
                ) == strip_cr(sp[q]),
        decreases n - i,
    {
        let (a, b) = ps[i];
        if a < b && v[b - 1] == '\r' {
            proof {
                assert(v@.subrange(a as int, b - 1) =~= v@.subrange(a as int, b as int).drop_last());
            }
            r.push((a, b - 1));
        } else {
            r.push((a, b));
        }
        i += 1;
    }
    let (a, b) = ps[n - 1];
    if a < b {
        r.push((a, b));
    }
    proof {
        let body = sp.take(n - 1).map_values(|p: Seq<char>| strip_cr(p));
        assert forall|q: int| 0 <= q < body.len() implies body[q] == strip_cr(sp[q]) by {}
    }
    r
}

// ---- decimal numbers ----------------------------------------------------------------

/// Whether `c` is an ASCII decimal digit.
pub open spec fn is_digit(c: char) -> bool {
    '0' <= c && c <= '9'
}

/// The value of the digit `c`.
pub open spec fn digit_val(c: char) -> int {
    (c as int) - ('0' as int)
}

/// Whether `d` is a non-empty run of decimal digits.
pub open spec fn all_digits(d: Seq<char>) -> bool {
    d.len() > 0 && forall|i: int| 0 <= i < d.len() ==> is_digit(#[trigger] d[i])
}

/// The value of the decimal digits `d`.
pub open spec fn digits_val(d: Seq<char>) -> int
    decreases d.len(),
{
    if d.len() == 0 {
        0
    } else {
        digits_val(d.drop_last()) * 10 + digit_val(d.last())
    }
}

/// What `str::parse::<u32>` gives for `s`: an optional `+`, then decimal digits
/// whose value fits.
pub open spec fn parse_u32_spec(s: Seq<char>) -> Option<u32> {
    let d = if s.len() > 0 && s[0] == '+' {
        s.drop_first()
    } else {
        s
    };
    if all_digits(d) && digits_val(d) <= u32::MAX {
        Some(digits_val(d) as u32)
    } else {
        None
    }
}

/// What `str::parse::<i32>` gives for `s`: an optional sign, then decimal digits
/// whose signed value fits.
pub open spec fn parse_i32_spec(s: Seq<char>) -> Option<i32> {
    let neg = s.len() > 0 && s[0] == '-';
    let d = if s.len() > 0 && (s[0] == '+' || s[0] == '-') {
        s.drop_first()
    } else {
        s
    };
    let v = if neg {
        -digits_val(d)
    } else {
        digits_val(d)
    };
    if all_digits(d) && i32::MIN <= v <= i32::MAX {
        Some(v as i32)
    } else {
        None
    }
}

proof fn lemma_digits_prefix(d: Seq<char>, i: int)
    requires
        0 <= i <= d.len(),
        forall|q: int| 0 <= q < d.len() ==> is_digit(#[trigger] d[q]),
    ensures
        0 <= digits_val(d.take(i)) <= digits_val(d),
    decreases d.len(),
{
    if d.len() > 0 {
        let p = d.drop_last();
        assert forall|q: int| 0 <= q < p.len() implies is_digit(#[trigger] p[q]) by {
            assert(p[q] == d[q]);
        }
        assert(is_digit(d[d.len() - 1]));
        if i == d.len() {
            assert(d.take(i) =~= d);
            lemma_digits_prefix(p, p.len() as int);
            assert(p.take(p.len() as int) =~= p);
        } else {
            lemma_digits_prefix(p, i);
            assert(p.take(i) =~= d.take(i));
        }
    }
}

/// The value of the digits `v[a..b]`, or `None` where one is not a digit, there are
/// none, or the value exceeds `limit`.
fn digits_upto(v: &Vec<char>, a: usize, b: usize, limit: u64) -> (r: Option<u64>)
    requires
        a <= b <= v.len(),
        limit <= u32::MAX + 1,
    ensures
        ({
            let d = v@.subrange(a as int, b as int);
            &&& r == (if all_digits(d) && digits_val(d) <= limit {
                Some(digits_val(d) as u64)
            } else {
                None::<u64>
            })
            &&& (r matches Some(x) ==> x as int == digits_val(d))
        }),
{
    let ghost d = v@.subrange(a as int, b as int);
    if a == b {
        return None;
    }
    let mut k = a;
    while k < b
        invariant
            a <= k <= b <= v.len(),
            d == v@.subrange(a as int, b as int),
            forall|q: int| 0 <= q < k - a ==> is_digit(#[trigger] d[q]),
        decreases b - k,
    {
        if !('0' <= v[k] && v[k] <= '9') {
            assert(!is_digit(d[k - a]));
            return None;
        }
        k += 1;
    }
    let mut acc: u64 = 0;
    let mut i = a;
    proof {
        assert(d.take(0) =~= Seq::<char>::empty());
    }
    while i < b
        invariant
            a <= i <= b <= v.len(),
            d == v@.subrange(a as int, b as int),
            all_digits(d),
            limit <= u32::MAX + 1,
            acc == digits_val(d.take(i - a)),
            acc <= limit,
        decreases b - i,
    {
        let c = v[i];
        proof {
            assert(d.take(i - a + 1).drop_last() =~= d.take(i - a));
            assert(d.take(i - a + 1).last() == c);
        }
        let next = acc * 10 + ((c as u64) - ('0' as u64));
        if next > limit {
            proof {
                lemma_digits_prefix(d, i - a + 1);
            }
            return None;
        }
        acc = next;
        i += 1;
    }
    proof {
        assert(d.take(b - a) =~= d);
    }
    Some(acc)
}

/// `str::parse::<u32>` of the characters `v[a..b]` (see [`parse_u32_spec`]).
pub fn parse_u32_at(v: &Vec<char>, a: usize, b: usize) -> (r: Option<u32>)
    requires
        a <= b <= v.len(),
    ensures
        r == parse_u32_spec(v@.subrange(a as int, b as int)),
{
    let ghost s = v@.subrange(a as int, b as int);
    let start = if a < b && v[a] == '+' { a + 1 } else { a };
    proof {
        if a < b && v@[a as int] == '+' {
            assert(s.drop_first() =~= v@.subrange(start as int, b as int));
        }
    }
    match digits_upto(v, start, b, 4294967295) {
        Some(x) => Some(x as u32),
        None => None,
    }
}

/// `str::parse::<i32>` of the characters `v[a..b]` (see [`parse_i32_spec`]).
pub fn parse_i32_at(v: &Vec<char>, a: usize, b: usize) -> (r: Option<i32>)
    requires
        a <= b <= v.len(),
    ensures
        r == parse_i32_spec(v@.subrange(a as int, b as int)),
{
    let ghost s = v@.subrange(a as int, b as int);
    let neg = a < b && v[a] == '-';
    let start = if a < b && (v[a] == '+' || v[a] == '-') { a + 1 } else { a };
    proof {
        if a < b && (v@[a as int] == '+' || v@[a as int] == '-') {
            assert(s.drop_first() =~= v@.subrange(start as int, b as int));
        }
    }
    let limit: u64 = if neg { 2147483648 } else { 2147483647 };
    match digits_upto(v, start, b, limit) {
        Some(x) => {
            if neg {
                if x == 2147483648 {
                    Some(-2147483648i32)
                } else {
                    Some(-(x as i32))
                }
            } else {
                Some(x as i32)
            }
        },
        None => None,
    }
}


// ---- floating-point literals --------------------------------------------------------

/// Whether `c` is `w` up to ASCII case (`w` in lower case).
pub open spec fn same_letter(c: char, w: char) -> bool {
    c == w || ('a' <= w <= 'z' && (c as int) + 32 == (w as int))
}

/// Whether every character of `d` is a decimal digit (`d` may be empty).
pub open spec fn only_digits(d: Seq<char>) -> bool {
    forall|i: int| 0 <= i < d.len() ==> is_digit(#[trigger] d[i])
}

/// Whether `s` is `w` up to ASCII case (`w` in lower case).
pub open spec fn same_word(s: Seq<char>, w: Seq<char>) -> bool {
    s.len() == w.len() && forall|i: int| 0 <= i < s.len() ==> same_letter(#[trigger] s[i], w[i])
}

/// `s` without a leading sign.
pub open spec fn unsigned_part(s: Seq<char>) -> Seq<char> {
    if s.len() > 0 && (s[0] == '+' || s[0] == '-') {
        s.drop_first()
    } else {
        s
    }
}

/// The position of the first character of `s` that `w` is up to case, or `s.len()`.
pub open spec fn first_letter(s: Seq<char>, w: char) -> int
    decreases s.len(),
{
    if s.len() == 0 {
        0
    } else if same_letter(s[0], w) {
        0
    } else {
        1 + first_letter(s.drop_first(), w)
    }
}

/// Digits with at most one `.` among them, and at least one digit.
pub open spec fn mantissa_text(m: Seq<char>) -> bool {
    let d = first_letter(m, '.');
    only_digits(m.take(d)) && (d == m.len() || only_digits(m.skip(d + 1))) && (d > 0 || m.len()
        > d + 1)
}

/// An optional sign and at least one digit.
pub open spec fn exponent_text(x: Seq<char>) -> bool {
    all_digits(unsigned_part(x))
}

/// Whether `str::parse::<f64>` accepts `s`: as its documentation gives the grammar, an
/// optional sign, then `inf`, `infinity`, `nan` (in any case) or a number: a mantissa
/// and an optional exponent `e` (or `E`) with an optional sign and digits.
pub open spec fn float_text(s: Seq<char>) -> bool {
    let u = unsigned_part(s);
    let e = first_letter(u, 'e');
    ||| same_word(u, "inf"@)
    ||| same_word(u, "infinity"@)
    ||| same_word(u, "nan"@)
    ||| mantissa_text(u.take(e)) && (e == u.len() || exponent_text(u.skip(e + 1)))
}

fn same_letter_exec(c: char, w: char) -> (r: bool)
    ensures
        r == same_letter(c, w),
{
    c == w || ('a' <= w && w <= 'z' && (c as u32) + 32 == (w as u32))
}

fn same_word_exec(s: &Vec<char>, w: &str) -> (r: bool)
    ensures
        r == same_word(s@, w@),
{
    let wv = chars_of(w);
    if s.len() != wv.len() {
        return false;
    }
    let mut i: usize = 0;
    while i < s.len()
        invariant
            i <= s.len(),
            s.len() == wv.len(),
            wv@ == w@,
            forall|q: int| 0 <= q < i ==> same_letter(#[trigger] s@[q], wv@[q]),
        decreases s.len() - i,
    {
        if !same_letter_exec(s[i], wv[i]) {
            return false;
        }
        i += 1;
    }
    true
}

fn first_letter_exec(s: &Vec<char>, w: char) -> (r: usize)
    ensures
        r == first_letter(s@, w),
        r <= s.len(),
{
    let mut i: usize = 0;
    proof {
        assert(s@.skip(0) =~= s@);
    }
    while i < s.len() && !same_letter_exec(s[i], w)
        invariant
            i <= s.len(),
            first_letter(s@, w) == i + first_letter(s@.skip(i as int), w),
        decreases s.len() - i,
    {
        proof {
            assert(s@.skip(i as int).drop_first() =~= s@.skip(i + 1));
        }
        i += 1;
    }
    proof {
        if i < s.len() {
            assert(s@.skip(i as int)[0] == s@[i as int]);
        } else {
            assert(s@.skip(i as int).len() == 0);
        }
    }
    i
}

fn only_digits_exec(s: &Vec<char>, a: usize, b: usize) -> (r: bool)
    requires
        a <= b <= s.len(),
    ensures
        r == only_digits(s@.subrange(a as int, b as int)),
{
    let mut i = a;
    while i < b
        invariant
            a <= i <= b <= s.len(),
            forall|q: int| a <= q < i ==> is_digit(#[trigger] s@[q]),
        decreases b - i,
    {
        if !('0' <= s[i] && s[i] <= '9') {
            proof {
                assert(s@.subrange(a as int, b as int)[i - a] == s@[i as int]);
            }
            return false;
        }
        i += 1;
    }
    proof {
        assert forall|q: int| 0 <= q < b - a implies is_digit(
            #[trigger] s@.subrange(a as int, b as int)[q],
        ) by {
            assert(s@.subrange(a as int, b as int)[q] == s@[a + q]);
        }
    }
    true
}

/// Whether `str::parse::<f64>` accepts `s` (see [`float_text`]).
pub fn is_float_text(s: &str) -> (r: bool)
    ensures
        r == float_text(s@),
{
    let v = chars_of(s);
    let start: usize = if v.len() > 0 && (v[0] == '+' || v[0] == '-') { 1 } else { 0 };
    let u = sub_chars(&v, start, v.len());
    proof {
        if start == 1 {
            assert(u@ =~= s@.drop_first());
        } else {
            assert(u@ =~= s@);
        }
        assert(u@ == unsigned_part(s@));
    }
    if same_word_exec(&u, "inf") || same_word_exec(&u, "infinity") || same_word_exec(&u, "nan") {
        return true;
    }
    let e = first_letter_exec(&u, 'e');
    let m = sub_chars(&u, 0, e);
    let d = first_letter_exec(&m, '.');
    proof {
        assert(m@ =~= u@.take(e as int));
        assert(m@.take(d as int) =~= m@.subrange(0, d as int));
        if d < m.len() {
            assert(m@.skip(d + 1) =~= m@.subrange(d + 1, m.len() as int));
        }
    }
    let mant = only_digits_exec(&m, 0, d) && (d == m.len() || only_digits_exec(&m, d + 1, m.len()))
        && (d > 0 || m.len() > d + 1);
    if !mant {
        return false;
    }
    if e == u.len() {
        return true;
    }
    let x = sub_chars(&u, e + 1, u.len());
    let xs: usize = if x.len() > 0 && (x[0] == '+' || x[0] == '-') { 1 } else { 0 };
    proof {
        assert(x@ =~= u@.skip(e + 1));
        if xs == 1 {
            assert(x@.subrange(1, x.len() as int) =~= x@.drop_first());
        } else {
            assert(x@.subrange(0, x.len() as int) =~= x@);
        }
    }
    x.len() > xs && only_digits_exec(&x, xs, x.len())
}

/// The characters `a..b` of `s`, as a string.
pub fn substring(s: &str, a: usize, b: usize) -> (r: String)
    requires
        a <= b <= s@.len(),
    ensures
        r@ == s@.subrange(a as int, b as int),
{
    s.substring_char(a, b).to_owned()
}

/// The characters `a..b` of `v`.
pub fn sub_chars(v: &Vec<char>, a: usize, b: usize) -> (r: Vec<char>)
    requires
        a <= b <= v.len(),
    ensures
        r@ == v@.subrange(a as int, b as int),
{
    let mut r: Vec<char> = Vec::new();
    let mut i = a;
    while i < b
        invariant
            a <= i <= b <= v.len(),
            r@ == v@.subrange(a as int, i as int),
        decreases b - i,
    {
        r.push(v[i]);
        proof {
            assert(v@.subrange(a as int, i + 1) =~= v@.subrange(a as int, i as int).push(v@[i as int]));
        }
        i += 1;
    }
    r
}

} // verus!
