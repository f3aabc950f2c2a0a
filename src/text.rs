//! Character-level helpers: whitespace, splitting into spans, trimming and
//! number parsing, each stated over `Seq<char>`.
use vstd::prelude::*;
use vstd::string::*;

verus! {

/// The characters that carry the Unicode `White_Space` property.
pub open spec fn is_ws(c: char) -> bool {
    ||| c == ' '
    ||| (9 <= (c as u32) && (c as u32) <= 13)
    ||| (c as u32) == 0x85
    ||| (c as u32) == 0xa0
    ||| (c as u32) == 0x1680
    ||| (0x2000 <= (c as u32) && (c as u32) <= 0x200a)
    ||| (c as u32) == 0x2028
    ||| (c as u32) == 0x2029
    ||| (c as u32) == 0x202f
    ||| (c as u32) == 0x205f
    ||| (c as u32) == 0x3000
}

pub fn is_space(c: char) -> (r: bool)
    ensures
        r == is_ws(c),
{
    let u: u32 = c as u32;
    c == ' ' || (9 <= u && u <= 13) || u == 0x85 || u == 0xa0 || u == 0x1680 || (0x2000 <= u && u
        <= 0x200a) || u == 0x2028 || u == 0x2029 || u == 0x202f || u == 0x205f || u == 0x3000
}

/// The characters of `s`, one element each.
pub fn chars_of(s: &str) -> (r: Vec<char>)
    ensures
        r@ == s@,
{
    let n: usize = s.unicode_len();
    let mut v: Vec<char> = Vec::new();
    let mut i: usize = 0;
    while i < n
        invariant
            n == s@.len(),
            i <= n,
            v@ == s@.take(i as int),
        decreases n - i,
    {
        v.push(s.get_char(i));
        i += 1;
        assert(v@ =~= s@.take(i as int));
    }
    assert(v@ =~= s@);
    v
}

/// A half-open range of positions that lies inside a sequence of length `n`.
pub open spec fn span_ok(p: (usize, usize), n: int) -> bool {
    p.0 <= p.1 && p.1 <= n
}

pub open spec fn spans_ok(ps: Seq<(usize, usize)>, n: int) -> bool {
    forall|k: int| 0 <= k < ps.len() ==> span_ok(#[trigger] ps[k], n)
}

/// The pieces of `s` that the spans `ps` cover, in order.
pub open spec fn pieces(s: Seq<char>, ps: Seq<(usize, usize)>) -> Seq<Seq<char>> {
    Seq::new(ps.len(), |k: int| s.subrange(ps[k].0 as int, ps[k].1 as int))
}

/// Maximal runs of non-whitespace characters, with `cur` the run read so far.
pub open spec fn split_ws_from(s: Seq<char>, cur: Seq<char>) -> Seq<Seq<char>>
    decreases s.len(),
{
    if s.len() == 0 {
        if cur.len() > 0 {
            seq![cur]
        } else {
            Seq::empty()
        }
    } else if is_ws(s[0]) {
        (if cur.len() > 0 {
            seq![cur]
        } else {
            Seq::empty()
        }) + split_ws_from(s.drop_first(), Seq::empty())
    } else {
        split_ws_from(s.drop_first(), cur.push(s[0]))
    }
}

/// The whitespace-separated tokens of `s`.
pub open spec fn split_ws(s: Seq<char>) -> Seq<Seq<char>> {
    split_ws_from(s, Seq::empty())
}

/// Pieces between occurrences of `sep`, with `cur` the piece read so far.
pub open spec fn split_char_from(s: Seq<char>, sep: char, cur: Seq<char>) -> Seq<Seq<char>>
    decreases s.len(),
{
    if s.len() == 0 {
        seq![cur]
    } else if s[0] == sep {
        seq![cur] + split_char_from(s.drop_first(), sep, Seq::empty())
    } else {
        split_char_from(s.drop_first(), sep, cur.push(s[0]))
    }
}

/// The pieces of `s` between occurrences of `sep`; there is always one more
/// piece than there are separators.
pub open spec fn split_char(s: Seq<char>, sep: char) -> Seq<Seq<char>> {
    split_char_from(s, sep, Seq::empty())
}

/// Spans of the whitespace-separated tokens of `v[a..b]`; the spans are
/// positions in `v`.
pub fn token_spans(v: &Vec<char>, a: usize, b: usize) -> (r: Vec<(usize, usize)>)
    requires
        a <= b <= v@.len(),
    ensures
        spans_ok(r@, v@.len() as int),
        pieces(v@, r@) == split_ws(v@.subrange(a as int, b as int)),
        forall|k: int| 0 <= k < r@.len() ==> a <= (#[trigger] r@[k]).0 && r@[k].1 <= b,
{
    let ghost s = v@.subrange(a as int, b as int);
    let mut out: Vec<(usize, usize)> = Vec::new();
    let mut start: usize = a;
    let mut i: usize = a;
    assert(v@.subrange(a as int, a as int) =~= Seq::<char>::empty());
    assert(pieces(v@, out@) =~= Seq::<Seq<char>>::empty());
    while i < b
        invariant
            a <= start <= i <= b <= v@.len(),
            s == v@.subrange(a as int, b as int),
            spans_ok(out@, v@.len() as int),
            forall|k: int| 0 <= k < out@.len() ==> a <= (#[trigger] out@[k]).0 && out@[k].1 <= b,
            pieces(v@, out@) + split_ws_from(
                v@.subrange(i as int, b as int),
                v@.subrange(start as int, i as int),
            ) == split_ws(s),
        decreases b - i,
    {
        let ghost rest = v@.subrange(i as int, b as int);
        let ghost cur = v@.subrange(start as int, i as int);
        assert(rest[0] == v@[i as int]);
        assert(rest.drop_first() =~= v@.subrange(i + 1, b as int));
        if is_space(v[i]) {
            if start < i {
                let ghost old_out = out@;
                out.push((start, i));
                assert(pieces(v@, out@) =~= pieces(v@, old_out) + seq![cur]);
            }
            assert(v@.subrange(i + 1, i + 1) =~= Seq::<char>::empty());
            start = i + 1;
        } else {
            assert(cur.push(v@[i as int]) =~= v@.subrange(start as int, i + 1));
        }
        i += 1;
    }
    let ghost cur = v@.subrange(start as int, b as int);
    assert(v@.subrange(b as int, b as int) =~= Seq::<char>::empty());
    if start < b {
        let ghost old_out = out@;
        out.push((start, b));
        assert(pieces(v@, out@) =~= pieces(v@, old_out) + seq![cur]);
    }
    assert(pieces(v@, out@) =~= split_ws(s));
    out
}

/// Spans of the pieces of `v[a..b]` between occurrences of `sep`; the spans
/// are positions in `v`.
pub fn split_spans(v: &Vec<char>, a: usize, b: usize, sep: char) -> (r: Vec<(usize, usize)>)
    requires
        a <= b <= v@.len(),
    ensures
        spans_ok(r@, v@.len() as int),
        pieces(v@, r@) == split_char(v@.subrange(a as int, b as int), sep),
        r@.len() >= 1,
        forall|k: int| 0 <= k < r@.len() ==> a <= (#[trigger] r@[k]).0 && r@[k].1 <= b,
{
    let ghost s = v@.subrange(a as int, b as int);
    let mut out: Vec<(usize, usize)> = Vec::new();
    let mut start: usize = a;
    let mut i: usize = a;
    assert(v@.subrange(a as int, a as int) =~= Seq::<char>::empty());
    assert(pieces(v@, out@) =~= Seq::<Seq<char>>::empty());
    while i < b
        invariant
            a <= start <= i <= b <= v@.len(),
            s == v@.subrange(a as int, b as int),
            spans_ok(out@, v@.len() as int),
            forall|k: int| 0 <= k < out@.len() ==> a <= (#[trigger] out@[k]).0 && out@[k].1 <= b,
            pieces(v@, out@) + split_char_from(
                v@.subrange(i as int, b as int),
                sep,
                v@.subrange(start as int, i as int),
            ) == split_char(s, sep),
        decreases b - i,
    {
        let ghost rest = v@.subrange(i as int, b as int);
        let ghost cur = v@.subrange(start as int, i as int);
        assert(rest[0] == v@[i as int]);
        assert(rest.drop_first() =~= v@.subrange(i + 1, b as int));
        if v[i] == sep {
            let ghost old_out = out@;
            out.push((start, i));
            assert(pieces(v@, out@) =~= pieces(v@, old_out) + seq![cur]);
            assert(v@.subrange(i + 1, i + 1) =~= Seq::<char>::empty());
            start = i + 1;
        } else {
            assert(cur.push(v@[i as int]) =~= v@.subrange(start as int, i + 1));
        }
        i += 1;
    }
    let ghost cur = v@.subrange(start as int, b as int);
    let ghost old_out = out@;
    out.push((start, b));
    assert(pieces(v@, out@) =~= pieces(v@, old_out) + seq![cur]);
    out
}

pub open spec fn trim_start(s: Seq<char>) -> Seq<char>
    decreases s.len(),
{
    if s.len() > 0 && is_ws(s[0]) {
        trim_start(s.drop_first())
    } else {
        s
    }
}

pub open spec fn trim_end(s: Seq<char>) -> Seq<char>
    decreases s.len(),
{
    if s.len() > 0 && is_ws(s.last()) {
        trim_end(s.drop_last())
    } else {
        s
    }
}

/// `s` without leading and trailing whitespace.
pub open spec fn trim(s: Seq<char>) -> Seq<char> {
    trim_end(trim_start(s))
}

/// The span of `v[a..b]` once leading and trailing whitespace is dropped.
pub fn trim_span(v: &Vec<char>, a: usize, b: usize) -> (r: (usize, usize))
    requires
        a <= b <= v@.len(),
    ensures
        a <= r.0 <= r.1 <= b,
        v@.subrange(r.0 as int, r.1 as int) == trim(v@.subrange(a as int, b as int)),
{
    let mut i: usize = a;
    while i < b && is_space(v[i])
        invariant
            a <= i <= b <= v@.len(),
            trim_start(v@.subrange(a as int, b as int)) == trim_start(v@.subrange(i as int, b as int)),
        decreases b - i,
    {
        assert(v@.subrange(i as int, b as int).drop_first() =~= v@.subrange(i + 1, b as int));
        i += 1;
    }
    let mut j: usize = b;
    while j > i && is_space(v[j - 1])
        invariant
            a <= i <= j <= b <= v@.len(),
            trim(v@.subrange(a as int, b as int)) == trim_end(v@.subrange(i as int, j as int)),
        decreases j - i,
    {
        assert(v@.subrange(i as int, j as int).drop_last() =~= v@.subrange(i as int, j - 1));
        j -= 1;
    }
    (i, j)
}

/// `p` followed by anything.
pub open spec fn has_prefix(s: Seq<char>, p: Seq<char>) -> bool {
    p.len() <= s.len() && s.take(p.len() as int) == p
}

/// Whether `v[a..b]` begins with the characters of `lit`.
pub fn span_starts_with(v: &Vec<char>, a: usize, b: usize, lit: &str) -> (r: bool)
    requires
        a <= b <= v@.len(),
    ensures
        r == has_prefix(v@.subrange(a as int, b as int), lit@),
{
    let p = chars_of(lit);
    let n: usize = p.len();
    if n > b - a {
        return false;
    }
    let mut k: usize = 0;
    while k < n
        invariant
            n == p@.len() == lit@.len(),
            p@ == lit@,
            a + n <= b <= v@.len(),
            k <= n,
            forall|t: int| 0 <= t < k ==> v@[a + t] == p@[t],
        decreases n - k,
    {
        if v[a + k] != p[k] {
            assert(v@.subrange(a as int, b as int).take(n as int)[k as int] != lit@[k as int]);
            return false;
        }
        k += 1;
    }
    assert(v@.subrange(a as int, b as int).take(n as int) =~= lit@);
    true
}

/// Whether `v[a..b]` holds exactly the characters of `lit`.
pub fn span_is(v: &Vec<char>, a: usize, b: usize, lit: &str) -> (r: bool)
    requires
        a <= b <= v@.len(),
    ensures
        r == (v@.subrange(a as int, b as int) == lit@),
{
    let n: usize = lit.unicode_len();
    if n != b - a {
        return false;
    }
    let r = span_starts_with(v, a, b, lit);
    assert(v@.subrange(a as int, b as int).take(n as int) =~= v@.subrange(a as int, b as int));
    r
}

pub open spec fn is_digit(c: char) -> bool {
    48 <= (c as u32) && (c as u32) <= 57
}

pub open spec fn digit_value(c: char) -> nat {
    ((c as u32) - 48) as nat
}

pub open spec fn all_digits(s: Seq<char>) -> bool {
    forall|i: int| 0 <= i < s.len() ==> is_digit(#[trigger] s[i])
}

/// The number that the decimal digits `s` write, most significant first.
pub open spec fn digits_value(s: Seq<char>) -> nat
    decreases s.len(),
{
    if s.len() == 0 {
        0
    } else {
        digits_value(s.drop_last()) * 10 + digit_value(s.last())
    }
}

/// `s` without one leading `+`.
pub open spec fn unsigned_body(s: Seq<char>) -> Seq<char> {
    if s.len() > 0 && s[0] == '+' {
        s.drop_first()
    } else {
        s
    }
}

/// An unsigned decimal number: an optional `+`, then one or more ASCII digits.
pub open spec fn decimal_value(s: Seq<char>) -> Option<nat> {
    let d = unsigned_body(s);
    if d.len() > 0 && all_digits(d) {
        Some(digits_value(d))
    } else {
        None
    }
}

pub open spec fn parse_u64_spec(s: Seq<char>) -> Option<u64> {
    match decimal_value(s) {
        Some(n) => if n <= u64::MAX {
            Some(n as u64)
        } else {
            None
        },
        None => None,
    }
}

pub open spec fn parse_u32_spec(s: Seq<char>) -> Option<u32> {
    match decimal_value(s) {
        Some(n) => if n <= u32::MAX {
            Some(n as u32)
        } else {
            None
        },
        None => None,
    }
}

proof fn lemma_digits_value_prefix(s: Seq<char>, k: int)
    requires
        0 <= k <= s.len(),
    ensures
        digits_value(s.take(k)) <= digits_value(s),
    decreases s.len(),
{
    if k < s.len() {
        lemma_digits_value_prefix(s.drop_last(), k);
        assert(s.drop_last().take(k) =~= s.take(k));
    } else {
        assert(s.take(k) =~= s);
    }
}

/// The value of the digits `v[a..b]` when they are all digits and the value
/// is at most `max`.
fn digits_bounded(v: &Vec<char>, a: usize, b: usize, max: u64) -> (r: Option<u64>)
    requires
        a <= b <= v@.len(),
        max >= 9,
    ensures
        match r {
            Some(x) => all_digits(v@.subrange(a as int, b as int)) && x == digits_value(
                v@.subrange(a as int, b as int),
            ) && x <= max,
            None => !all_digits(v@.subrange(a as int, b as int)) || digits_value(
                v@.subrange(a as int, b as int),
            ) > max,
        },
{
    let ghost s = v@.subrange(a as int, b as int);
    let mut acc: u64 = 0;
    let mut i: usize = a;
    assert(v@.subrange(a as int, a as int) =~= Seq::<char>::empty());
    while i < b
        invariant
            a <= i <= b <= v@.len(),
            max >= 9,
            s == v@.subrange(a as int, b as int),
            all_digits(v@.subrange(a as int, i as int)),
            acc == digits_value(v@.subrange(a as int, i as int)),
            acc <= max,
        decreases b - i,
    {
        let c = v[i];
        let u: u32 = c as u32;
        if u < 48 || u > 57 {
            assert(!is_digit(s[i - a]));
            return None;
        }
        let d: u64 = (u - 48) as u64;
        let ghost next = v@.subrange(a as int, i + 1);
        assert(next.drop_last() =~= v@.subrange(a as int, i as int));
        assert(next.last() == c);
        assert(all_digits(next));
        if acc > (max - d) / 10 {
            assert(acc * 10 + d > max) by (nonlinear_arith)
                requires
                    acc > (max - d) / 10,
                    d <= 9,
                    max >= 9,
            ;
            proof {
                if all_digits(s) {
                    assert(s.take(i + 1 - a) =~= next);
                    lemma_digits_value_prefix(s, i + 1 - a);
                }
            }
            return None;
        }
        assert(acc * 10 + d <= max) by (nonlinear_arith)
            requires
                acc <= (max - d) / 10,
                d <= 9,
                max >= 9,
        ;
        acc = acc * 10 + d;
        i += 1;
    }
    assert(v@.subrange(a as int, i as int) =~= s);
    Some(acc)
}

/// Reads `v[a..b]` as Rust's `u64::from_str` does.
pub fn parse_u64_in(v: &Vec<char>, a: usize, b: usize) -> (r: Option<u64>)
    requires
        a <= b <= v@.len(),
    ensures
        r == parse_u64_spec(v@.subrange(a as int, b as int)),
{
    let mut s: usize = a;
    if a < b && v[a] == '+' {
        s = a + 1;
    }
    assert(unsigned_body(v@.subrange(a as int, b as int)) =~= v@.subrange(s as int, b as int));
    if s == b {
        return None;
    }
    digits_bounded(v, s, b, u64::MAX)
}

/// Reads `v[a..b]` as Rust's `u32::from_str` does.
pub fn parse_u32_in(v: &Vec<char>, a: usize, b: usize) -> (r: Option<u32>)
    requires
        a <= b <= v@.len(),
    ensures
        r == parse_u32_spec(v@.subrange(a as int, b as int)),
{
    match parse_u64_in(v, a, b) {
        Some(x) => if x <= u32::MAX as u64 {
            Some(x as u32)
        } else {
            None
        },
        None => None,
    }
}

/// The value of the `k`-th fractional digit of `f`, zero past its end.
pub open spec fn fraction_digit(f: Seq<char>, k: int) -> nat {
    if k < f.len() {
        digit_value(f[k])
    } else {
        0
    }
}

/// Thousandths written by the fractional digits `f`: the first three count,
/// the rest are dropped.
pub open spec fn milli_of_fraction(f: Seq<char>) -> nat {
    100 * fraction_digit(f, 0) + 10 * fraction_digit(f, 1) + fraction_digit(f, 2)
}

/// `d` has its decimal point at `p`, with only digits around it.
pub open spec fn point_at(d: Seq<char>, p: int) -> bool {
    &&& 0 <= p < d.len()
    &&& d[p] == '.'
    &&& all_digits(d.take(p))
    &&& all_digits(d.skip(p + 1))
    &&& d.len() > 1
}

/// A non-negative decimal number in thousandths: an optional `+`, digits,
/// and optionally a point with more digits (`3`, `3.5`, `.5`, `3.`), with at
/// least one digit in all.
pub open spec fn decimal_milli(s: Seq<char>) -> Option<nat> {
    let d = unsigned_body(s);
    if d.len() > 0 && all_digits(d) {
        Some(digits_value(d) * 1000)
    } else if exists|p: int| point_at(d, p) {
        let p = choose|p: int| point_at(d, p);
        Some(digits_value(d.take(p)) * 1000 + milli_of_fraction(d.skip(p + 1)))
    } else {
        None
    }
}

pub open spec fn parse_milli_spec(s: Seq<char>) -> Option<u64> {
    match decimal_milli(s) {
        Some(n) => if n <= u64::MAX {
            Some(n as u64)
        } else {
            None
        },
        None => None,
    }
}

/// The largest whole part whose thousandths fit in a `u64`.
const MILLI_WHOLE_MAX: u64 = 18446744073709551;

fn all_digits_in(v: &Vec<char>, a: usize, b: usize) -> (r: bool)
    requires
        a <= b <= v@.len(),
    ensures
        r == all_digits(v@.subrange(a as int, b as int)),
{
    let mut i: usize = a;
    while i < b
        invariant
            a <= i <= b <= v@.len(),
            forall|t: int| a <= t < i ==> is_digit(v@[t]),
        decreases b - i,
    {
        let u: u32 = v[i] as u32;
        if u < 48 || u > 57 {
            assert(!is_digit(v@.subrange(a as int, b as int)[i - a]));
            return false;
        }
        i += 1;
    }
    assert forall|t: int| 0 <= t < b - a implies is_digit(
        #[trigger] v@.subrange(a as int, b as int)[t],
    ) by {
        assert(v@.subrange(a as int, b as int)[t] == v@[a + t]);
    }
    true
}

fn digit_at(v: &Vec<char>, a: usize, b: usize, k: usize) -> (r: u64)
    requires
        a <= b <= v@.len(),
        all_digits(v@.subrange(a as int, b as int)),
        k < 3,
    ensures
        r == fraction_digit(v@.subrange(a as int, b as int), k as int),
        r <= 9,
{
    if k < b - a {
        assert(is_digit(v@.subrange(a as int, b as int)[k as int]));
        (v[a + k] as u32 - 48) as u64
    } else {
        0
    }
}

/// Reads `v[a..b]` as a decimal number in thousandths.
pub fn parse_milli_in(v: &Vec<char>, a: usize, b: usize) -> (r: Option<u64>)
    requires
        a <= b <= v@.len(),
    ensures
        r == parse_milli_spec(v@.subrange(a as int, b as int)),
{
    let ghost s = v@.subrange(a as int, b as int);
    let mut st: usize = a;
    if a < b && v[a] == '+' {
        st = a + 1;
    }
    let ghost d = v@.subrange(st as int, b as int);
    assert(unsigned_body(s) =~= d);
    if st == b {
        return None;
    }
    let mut q: usize = st;
    while q < b && v[q] != '.'
        invariant
            st <= q <= b <= v@.len(),
            forall|t: int| st <= t < q ==> v@[t] != '.',
        decreases b - q,
    {
        q += 1;
    }
    if q == b {
        let r = digits_bounded(v, st, b, MILLI_WHOLE_MAX);
        proof {
            assert forall|p: int| !point_at(d, p) by {
                if 0 <= p < d.len() {
                    assert(d[p] == v@[st + p]);
                }
            }
            if r.is_none() && all_digits(d) {
                let n = digits_value(d);
                assert(n * 1000 > u64::MAX) by (nonlinear_arith)
                    requires
                        n > MILLI_WHOLE_MAX,
                ;
            }
            if let Some(x) = r {
                assert(x * 1000 <= u64::MAX) by (nonlinear_arith)
                    requires
                        x <= MILLI_WHOLE_MAX,
                ;
            }
        }
        return match r {
            Some(x) => Some(x * 1000),
            None => None,
        };
    }
    let ghost p = q - st;
    assert(d[p] == '.');
    assert(!all_digits(d));
    assert(d.take(p) =~= v@.subrange(st as int, q as int));
    assert(d.skip(p + 1) =~= v@.subrange(q + 1, b as int));
    assert forall|p2: int| point_at(d, p2) implies p2 == p by {
        if p2 < p {
            assert(d[p2] == v@[st + p2]);
        } else if p2 > p {
            assert(d.take(p2)[p] == d[p]);
        }
    }
    if b - st == 1 || !all_digits_in(v, q + 1, b) {
        return None;
    }
    let ip = digits_bounded(v, st, q, MILLI_WHOLE_MAX);
    match ip {
        Some(x) => {
            assert(point_at(d, p));
            let h: u64 = 100 * digit_at(v, q + 1, b, 0) + 10 * digit_at(v, q + 1, b, 1)
                + digit_at(v, q + 1, b, 2);
            assert(x * 1000 <= u64::MAX) by (nonlinear_arith)
                requires
                    x <= MILLI_WHOLE_MAX,
            ;
            let base: u64 = x * 1000;
            if base > u64::MAX - h {
                return None;
            }
            Some(base + h)
        },
        None => {
            proof {
                if all_digits(d.take(p)) {
                    let n = digits_value(d.take(p));
                    assert(n * 1000 > u64::MAX) by (nonlinear_arith)
                        requires
                            n > MILLI_WHOLE_MAX,
                    ;
                }
            }
            None
        },
    }
}

/// `s` with every occurrence of `pat`, found left to right without overlap,
/// replaced by `with`.
pub open spec fn replace_all(s: Seq<char>, pat: Seq<char>, with: Seq<char>) -> Seq<char>
    decreases s.len(),
{
    if pat.len() == 0 || s.len() < pat.len() {
        s
    } else if s.take(pat.len() as int) == pat {
        with + replace_all(s.skip(pat.len() as int), pat, with)
    } else {
        seq![s[0]] + replace_all(s.drop_first(), pat, with)
    }
}

/// The characters of `v[a..b]` with every `pat` replaced by `with`.
pub fn replace_in(v: &Vec<char>, a: usize, b: usize, pat: &str, with: &str) -> (r: Vec<char>)
    requires
        a <= b <= v@.len(),
        pat@.len() > 0,
    ensures
        r@ == replace_all(v@.subrange(a as int, b as int), pat@, with@),
{
    let w = chars_of(with);
    let plen: usize = pat.unicode_len();
    let mut out: Vec<char> = Vec::new();
    let mut i: usize = a;
    assert(v@.subrange(a as int, b as int) =~= v@.subrange(i as int, b as int));
    while i < b
        invariant
            a <= i <= b <= v@.len(),
            plen == pat@.len() > 0,
            w@ == with@,
            out@ + replace_all(v@.subrange(i as int, b as int), pat@, with@) == replace_all(
                v@.subrange(a as int, b as int),
                pat@,
                with@,
            ),
        decreases b - i,
    {
        let ghost rest = v@.subrange(i as int, b as int);
        if b - i >= plen && span_starts_with(v, i, b, pat) {
            assert(rest.skip(plen as int) =~= v@.subrange(i + plen, b as int));
            let ghost old_out = out@;
            let mut k: usize = 0;
            while k < w.len()
                invariant
                    k <= w@.len(),
                    out@ == old_out + w@.take(k as int),
                decreases w@.len() - k,
            {
                out.push(w[k]);
                k += 1;
                assert(out@ =~= old_out + w@.take(k as int));
            }
            assert(w@.take(w@.len() as int) =~= w@);
            assert(old_out + (with@ + replace_all(rest.skip(plen as int), pat@, with@)) =~= out@
                + replace_all(rest.skip(plen as int), pat@, with@));
            i = i + plen;
        } else {
            proof {
                if b - i >= plen {
                    assert(rest.take(plen as int) =~= v@.subrange(i as int, b as int).take(
                        pat@.len() as int,
                    ));
                }
            }
            assert(rest.drop_first() =~= v@.subrange(i + 1, b as int));
            let ghost old_out = out@;
            out.push(v[i]);
            assert(old_out + (seq![rest[0]] + replace_all(rest.drop_first(), pat@, with@)) =~= out@
                + replace_all(rest.drop_first(), pat@, with@));
            i = i + 1;
        }
    }
    assert(out@ + replace_all(v@.subrange(i as int, b as int), pat@, with@) =~= out@);
    out
}

/// `s` without one trailing carriage return.
pub open spec fn strip_cr(s: Seq<char>) -> Seq<char> {
    if s.len() > 0 && s.last() == '\r' {
        s.drop_last()
    } else {
        s
    }
}

/// How many lines the pieces `parts` make: all of them, but for a last
/// piece that is empty.
pub open spec fn line_count(parts: Seq<Seq<char>>) -> int {
    if parts.len() > 0 && parts.last().len() == 0 {
        parts.len() - 1
    } else {
        parts.len() as int
    }
}

/// Line `k` made from the pieces `parts`: a piece that a line feed ended
/// loses one trailing carriage return.
pub open spec fn line_at(parts: Seq<Seq<char>>, k: int) -> Seq<char> {
    if k + 1 < parts.len() {
        strip_cr(parts[k])
    } else {
        parts[k]
    }
}

/// The lines of `s` as Rust's `str::lines` yields them: the pieces between
/// line feeds, without a last piece that is empty, and with one carriage
/// return dropped from the end of each piece that a line feed ended.
pub open spec fn lines(s: Seq<char>) -> Seq<Seq<char>> {
    Seq::new(line_count(split_char(s, '\n')) as nat, |k: int| line_at(split_char(s, '\n'), k))
}

/// Spans of the lines of `v`.
pub fn line_spans(v: &Vec<char>) -> (r: Vec<(usize, usize)>)
    ensures
        spans_ok(r@, v@.len() as int),
        pieces(v@, r@) == lines(v@),
{
    let n: usize = v.len();
    let ps = split_spans(v, 0, n, '\n');
    assert(v@.subrange(0, n as int) =~= v@);
    let ghost parts = split_char(v@, '\n');
    let m: usize = ps.len();
    assert(pieces(v@, ps@)[m - 1] == parts.last());
    let kept: usize = if ps[m - 1].0 == ps[m - 1].1 {
        m - 1
    } else {
        m
    };
    assert(lines(v@).len() == kept);
    let mut out: Vec<(usize, usize)> = Vec::new();
    let mut k: usize = 0;
    while k < kept
        invariant
            lines(v@).len() == kept,
            parts == split_char(v@, '\n'),
            kept <= m == ps@.len() == parts.len(),
            pieces(v@, ps@) == parts,
            spans_ok(ps@, v@.len() as int),
            kept == m - 1 <==> parts.last().len() == 0,
            kept == m || kept == m - 1,
            m >= 1,
            k <= kept,
            out@.len() == k,
            spans_ok(out@, v@.len() as int),
            forall|t: int| 0 <= t < k ==> pieces(v@, out@)[t] == lines(v@)[t],
        decreases kept - k,
    {
        let (a, b) = ps[k];
        assert(pieces(v@, ps@)[k as int] == v@.subrange(a as int, b as int));
        let ghost line = lines(v@)[k as int];
        assert(line == line_at(parts, k as int));
        if k + 1 < m && b > a && v[b - 1] == '\r' {
            assert(v@.subrange(a as int, b as int).drop_last() =~= v@.subrange(a as int, b - 1));
            out.push((a, b - 1));
        } else {
            out.push((a, b));
        }
        assert(pieces(v@, out@)[k as int] == line);
        k += 1;
    }
    assert(pieces(v@, out@) =~= lines(v@));
    out
}

/// The characters `s[a..b]` as a new string.
pub fn string_of_span(s: &str, a: usize, b: usize) -> (r: String)
    requires
        a <= b <= s@.len(),
    ensures
        r@ == s@.subrange(a as int, b as int),
{
    s.substring_char(a, b).to_owned()
}

/// The tokens joined by single spaces.
pub open spec fn join_spaced(toks: Seq<Seq<char>>) -> Seq<char>
    decreases toks.len(),
{
    if toks.len() == 0 {
        Seq::empty()
    } else if toks.len() == 1 {
        toks[0]
    } else {
        join_spaced(toks.drop_last()) + seq![' '] + toks.last()
    }
}

/// The pieces of `s` that the spans `ps[from..]` cover, joined by single
/// spaces.
pub fn join_spans(s: &str, ps: &Vec<(usize, usize)>, from: usize) -> (r: String)
    requires
        spans_ok(ps@, s@.len() as int),
        from <= ps@.len(),
    ensures
        r@ == join_spaced(pieces(s@, ps@).skip(from as int)),
{
    let mut out = String::new();
    let mut k: usize = from;
    let ghost all = pieces(s@, ps@);
    assert(all.subrange(from as int, from as int) =~= Seq::<Seq<char>>::empty());
    while k < ps.len()
        invariant
            spans_ok(ps@, s@.len() as int),
            all == pieces(s@, ps@),
            from <= k <= ps@.len(),
            out@ == join_spaced(all.subrange(from as int, k as int)),
        decreases ps@.len() - k,
    {
        let (a, b) = ps[k];
        assert(span_ok(ps@[k as int], s@.len() as int));
        let piece = s.substring_char(a, b);
        let ghost next = all.subrange(from as int, k + 1);
        assert(next.drop_last() =~= all.subrange(from as int, k as int));
        assert(next.last() == piece@);
        if k > from {
            proof {
                reveal_strlit(" ");
            }
            out.append(" ");
            out.append(piece);
            assert(out@ =~= join_spaced(next.drop_last()) + seq![' '] + piece@);
        } else {
            out.append(piece);
            assert(next.len() == 1);
            assert(out@ =~= piece@);
        }
        k += 1;
    }
    assert(all.subrange(from as int, ps@.len() as int) =~= all.skip(from as int));
    out
}

proof fn lemma_run_head(s: Seq<char>, cur: Seq<char>)
    requires
        cur.len() > 0,
    ensures
        split_ws_from(s, cur).len() > 0,
        split_ws_from(s, cur)[0].len() > 0,
        split_ws_from(s, cur)[0][0] == cur[0],
    decreases s.len(),
{
    if s.len() > 0 && !is_ws(s[0]) {
        lemma_run_head(s.drop_first(), cur.push(s[0]));
    }
}

/// The first token of `s` begins with its first non-whitespace character,
/// and a line of nothing but whitespace has no token.
pub proof fn lemma_first_token(s: Seq<char>)
    ensures
        trim_start(s).len() == 0 ==> split_ws(s).len() == 0,
        trim_start(s).len() > 0 ==> split_ws(s).len() > 0 && split_ws(s)[0].len() > 0
            && split_ws(s)[0][0] == trim_start(s)[0],
    decreases s.len(),
{
    if s.len() > 0 {
        if is_ws(s[0]) {
            lemma_first_token(s.drop_first());
            assert(split_ws(s) =~= split_ws(s.drop_first()));
        } else {
            lemma_run_head(s.drop_first(), seq![s[0]]);
            assert(seq![s[0]] =~= Seq::<char>::empty().push(s[0]));
        }
    }
}

} // verus!
