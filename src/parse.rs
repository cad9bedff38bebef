//! Turning pasted measurement text into samples: one sample per line that holds
//! exactly a key and a decimal number, separated by white space.
use crate::error::CommandError;
use crate::sample::InputData;
use vstd::prelude::*;
use vstd::std_specs::iter::IteratorSpec;

verus! {

broadcast use vstd::string::axiom_spec_iter, vstd::string::next_postcondition;

/// Unicode white space, as `char::is_whitespace` documents it (the White_Space
/// property).
pub open spec fn is_space(c: char) -> bool {
    let u = c as u32;
    (0x9 <= u <= 0xd) || u == 0x20 || u == 0x85 || u == 0xa0 || u == 0x1680 || (0x2000 <= u
        <= 0x200a) || u == 0x2028 || u == 0x2029 || u == 0x202f || u == 0x205f || u == 0x3000
}

/// Whether `c` separates pieces: a line break when splitting into lines, white
/// space when splitting into words.
pub open spec fn is_sep(c: char, by_line: bool) -> bool {
    if by_line {
        c == '\n'
    } else {
        is_space(c)
    }
}

/// The pending piece `cur` as a sequence of pieces: none when it is empty.
pub open spec fn flush(cur: Seq<char>) -> Seq<Seq<char>> {
    if cur.len() > 0 {
        seq![cur]
    } else {
        Seq::empty()
    }
}

/// The non-empty pieces of `cur + s` between separators, where `cur` is a piece
/// already begun.
pub open spec fn pieces_from(s: Seq<char>, cur: Seq<char>, by_line: bool) -> Seq<Seq<char>>
    decreases s.len(),
{
    if s.len() == 0 {
        flush(cur)
    } else if is_sep(s[0], by_line) {
        flush(cur) + pieces_from(s.drop_first(), Seq::empty(), by_line)
    } else {
        pieces_from(s.drop_first(), cur.push(s[0]), by_line)
    }
}

/// The non-empty lines of `s`, in order.
pub open spec fn lines(s: Seq<char>) -> Seq<Seq<char>> {
    pieces_from(s, Seq::empty(), true)
}

/// The white-space separated words of `s`, in order.
pub open spec fn words(s: Seq<char>) -> Seq<Seq<char>> {
    pieces_from(s, Seq::empty(), false)
}

pub open spec fn is_digit(c: char) -> bool {
    0x30 <= c as u32 <= 0x39
}

pub open spec fn all_digits(s: Seq<char>) -> bool {
    forall|i: int| 0 <= i < s.len() ==> is_digit(#[trigger] s[i])
}

/// The number that a string of decimal digits writes.
pub open spec fn digits_value(s: Seq<char>) -> nat
    decreases s.len(),
{
    if s.len() == 0 {
        0
    } else {
        digits_value(s.drop_last()) * 10 + (s.last() as u32 - 0x30) as nat
    }
}

/// `b` is digits, then optionally a point at `p` followed by digits, with at
/// least one digit in all.
pub open spec fn split_ok(b: Seq<char>, p: int) -> bool {
    &&& 0 <= p <= b.len()
    &&& all_digits(b.take(p))
    &&& (p == b.len() || (b[p] == '.' && all_digits(b.skip(p + 1))))
    &&& (p > 0 || b.len() > p + 1)
}

/// The fractional digits of `b` when its point is at `p`.
pub open spec fn frac_part(b: Seq<char>, p: int) -> Seq<char> {
    if p < b.len() {
        b.skip(p + 1)
    } else {
        Seq::empty()
    }
}

pub open spec fn is_exp_mark(c: char) -> bool {
    c == 'e' || c == 'E'
}

/// The digits of an exponent suffix `x` (`e12`, `E-3`, `e+4`).
pub open spec fn exp_digits(x: Seq<char>) -> Seq<char> {
    let y = x.drop_first();
    if y.len() > 0 && (y[0] == '+' || y[0] == '-') {
        y.drop_first()
    } else {
        y
    }
}

/// `x` is no exponent, or `e`/`E`, an optional sign and at least one digit.
pub open spec fn exp_ok(x: Seq<char>) -> bool {
    x.len() == 0 || (is_exp_mark(x[0]) && exp_digits(x).len() > 0 && all_digits(exp_digits(x)))
}

/// The power of ten that an exponent suffix writes (zero for none).
pub open spec fn exp_value(x: Seq<char>) -> int {
    if x.len() == 0 {
        0
    } else if x.len() > 1 && x[1] == '-' {
        -digits_value(exp_digits(x))
    } else {
        digits_value(exp_digits(x)) as int
    }
}

/// `b` is a mantissa (its point, if any, at `p`) up to `q`, then an exponent.
pub open spec fn number_ok(b: Seq<char>, p: int, q: int) -> bool {
    &&& 0 <= q <= b.len()
    &&& split_ok(b.take(q), p)
    &&& exp_ok(b.skip(q))
}

/// The digits of the mantissa, the point left out.
pub open spec fn mant_digits(b: Seq<char>, p: int, q: int) -> Seq<char> {
    b.take(p) + frac_part(b.take(q), p)
}

/// The digits `m`, whose last digit stands for `10^s`, as a whole number:
/// digits that stand below `10^0` are dropped.
#[verifier::opaque]
pub open spec fn kept_micros(m: Seq<char>, s: int) -> nat {
    let j = if s >= 0 {
        m.len() as int
    } else if s + m.len() > 0 {
        s + m.len()
    } else {
        0
    };
    if j == 0 {
        0
    } else {
        digits_value(m.take(j)) * pow10((s + m.len() - j) as nat)
    }
}

/// The value, in millionths, of an unsigned number laid out as `number_ok`
/// says; digits past the millionths place are dropped.
pub open spec fn micros_at(b: Seq<char>, p: int, q: int) -> nat {
    kept_micros(
        mant_digits(b, p, q),
        6 + exp_value(b.skip(q)) - frac_part(b.take(q), p).len(),
    )
}

/// The value, in millionths, of an unsigned number (`12`, `12.5`, `.5`, `12.`,
/// `1e3`, `2.5E-4`).
#[verifier::opaque]
pub open spec fn unsigned_micros(b: Seq<char>) -> Option<nat> {
    if exists|p: int, q: int| number_ok(b, p, q) {
        let pq = choose|p: int, q: int| number_ok(b, p, q);
        Some(micros_at(b, pq.0, pq.1))
    } else {
        None
    }
}

/// The value, in millionths, of a decimal with an optional sign and exponent,
/// digits past the millionths place cut off; absent where the text is no such
/// number or its magnitude in millionths does not fit in `i64` (above about
/// 9.2e12).
pub open spec fn decimal_micros(t: Seq<char>) -> Option<i64> {
    let signed = t.len() > 0 && (t[0] == '-' || t[0] == '+');
    let b = if signed {
        t.drop_first()
    } else {
        t
    };
    match unsigned_micros(b) {
        Some(m) => if m <= i64::MAX {
            Some(
                if signed && t[0] == '-' {
                    -m
                } else {
                    m as int
                } as i64,
            )
        } else {
            None
        },
        None => None,
    }
}

/// What a line gives: its key and value when it holds exactly two words and the
/// second is a decimal.
pub open spec fn parse_line_spec(line: Seq<char>) -> Option<(Seq<char>, i64)> {
    let w = words(line);
    if w.len() == 2 && decimal_micros(w[1]) is Some {
        Some((w[0], decimal_micros(w[1])->0))
    } else {
        None
    }
}

/// `d` is the sample that a line giving `p` stands for.
pub open spec fn sample_is(d: InputData, p: (Seq<char>, i64)) -> bool {
    &&& d.key@ == p.0
    &&& d.name@ == p.0
    &&& d.volume == 0
    &&& d.value == p.1
    &&& d.modified_volume is None
}

/// The present values of `s`, in order.
pub open spec fn somes<T>(s: Seq<Option<T>>) -> Seq<T>
    decreases s.len(),
{
    if s.len() == 0 {
        Seq::empty()
    } else {
        somes(s.drop_last()) + match s.last() {
            Some(x) => seq![x],
            None => Seq::empty(),
        }
    }
}

/// The samples that the lines of `text` give, in line order.
pub open spec fn parsed_text(text: Seq<char>) -> Seq<(Seq<char>, i64)> {
    somes(lines(text).map_values(|l: Seq<char>| parse_line_spec(l)))
}

/// The characters of `s`, in order.
fn chars_of(s: &str) -> (r: Vec<char>)
    ensures
        r@ == s@,
{
    let mut it = s.chars();
    let mut out: Vec<char> = Vec::new();
    loop
        invariant
            it.obeys_prophetic_iter_laws(),
            out@ + it.remaining() == s@,
            it.decrease() is Some,
        decreases it.decrease()->0,
    {
        match it.next() {
            Some(c) => {
                out.push(c);
                proof {
                    assert(out@ + it.remaining() =~= s@);
                }
            },
            None => {
                proof {
                    assert(out@ =~= s@);
                }
                return out;
            },
        }
    }
}

/// Relies on `String`'s `FromIterator<&char>`: the string of `cs[from..to]`.
#[verifier::external_body]
fn string_of(cs: &Vec<char>, from: usize, to: usize) -> (r: String)
    requires
        from <= to <= cs@.len(),
    ensures
        r@ == cs@.subrange(from as int, to as int),
{
    cs[from..to].iter().collect()
}

/// The pieces that spans of `cs` mark, in order.
pub open spec fn span_pieces(cs: Seq<char>, spans: Seq<(usize, usize)>) -> Seq<Seq<char>> {
    spans.map_values(|sp: (usize, usize)| cs.subrange(sp.0 as int, sp.1 as int))
}

pub open spec fn pow10(n: nat) -> nat
    decreases n,
{
    if n == 0 {
        1
    } else {
        10 * pow10((n - 1) as nat)
    }
}

fn is_sep_exec(c: char, by_line: bool) -> (r: bool)
    ensures
        r == is_sep(c, by_line),
{
    if by_line {
        c == '\n'
    } else {
        let u = c as u32;
        (0x9 <= u && u <= 0xd) || u == 0x20 || u == 0x85 || u == 0xa0 || u == 0x1680 || (0x2000
            <= u && u <= 0x200a) || u == 0x2028 || u == 0x2029 || u == 0x202f || u == 0x205f
            || u == 0x3000
    }
}

fn is_digit_exec(c: char) -> (r: bool)
    ensures
        r == is_digit(c),
{
    let u = c as u32;
    0x30 <= u && u <= 0x39
}

/// The spans of the pieces of `cs[from..to]`: its lines, or its words.
fn split_spans(cs: &Vec<char>, from: usize, to: usize, by_line: bool) -> (r: Vec<(usize, usize)>)
    requires
        from <= to <= cs@.len(),
    ensures
        span_pieces(cs@, r@) == pieces_from(
            cs@.subrange(from as int, to as int),
            Seq::empty(),
            by_line,
        ),
        forall|k: int| 0 <= k < r@.len() ==> from <= (#[trigger] r@[k]).0 <= r@[k].1 <= to,
{
    let ghost s = cs@.subrange(from as int, to as int);
    let mut spans: Vec<(usize, usize)> = Vec::new();
    let mut start: usize = from;
    let mut i: usize = from;
    proof {
        assert(cs@.subrange(from as int, from as int) =~= Seq::<char>::empty());
        assert(span_pieces(cs@, spans@) + pieces_from(s, Seq::empty(), by_line) =~= pieces_from(
            s,
            Seq::empty(),
            by_line,
        ));
    }
    while i < to
        invariant
            from <= start <= i <= to <= cs@.len(),
            s == cs@.subrange(from as int, to as int),
            forall|k: int| 0 <= k < spans@.len() ==> from <= (#[trigger] spans@[k]).0 <= spans@[k].1 <= to,
            span_pieces(cs@, spans@) + pieces_from(
                cs@.subrange(i as int, to as int),
                cs@.subrange(start as int, i as int),
                by_line,
            ) == pieces_from(s, Seq::empty(), by_line),
        decreases to - i,
    {
        let c = cs[i];
        let ghost rest = cs@.subrange(i as int, to as int);
        let ghost cur = cs@.subrange(start as int, i as int);
        let ghost old_spans = spans@;
        proof {
            assert(rest.drop_first() =~= cs@.subrange(i + 1, to as int));
            assert(rest[0] == c);
        }
        if is_sep_exec(c, by_line) {
            if start < i {
                spans.push((start, i));
            }
            proof {
                assert(span_pieces(cs@, spans@) =~= span_pieces(cs@, old_spans) + flush(cur));
                assert(cs@.subrange(i + 1, i + 1) =~= Seq::<char>::empty());
                let p = pieces_from(cs@.subrange(i + 1, to as int), Seq::empty(), by_line);
                assert(span_pieces(cs@, old_spans) + (flush(cur) + p) =~= (span_pieces(
                    cs@,
                    old_spans,
                ) + flush(cur)) + p);
            }
            start = i + 1;
        } else {
            proof {
                assert(cur.push(c) =~= cs@.subrange(start as int, i + 1));
            }
        }
        i = i + 1;
    }
    let ghost old_spans = spans@;
    if start < to {
        spans.push((start, to));
    }
    proof {
        let cur = cs@.subrange(start as int, to as int);
        assert(cs@.subrange(to as int, to as int) =~= Seq::<char>::empty());
        assert(span_pieces(cs@, spans@) =~= span_pieces(cs@, old_spans) + flush(cur));
    }
    spans
}

/// What a well-formed number says of each of its characters.
proof fn lemma_number_shape(b: Seq<char>, p: int, q: int)
    requires
        number_ok(b, p, q),
    ensures
        0 <= p <= q <= b.len(),
        forall|i: int| 0 <= i < p ==> is_digit(#[trigger] b[i]),
        p < q ==> b[p] == '.',
        forall|i: int| p < i < q ==> is_digit(#[trigger] b[i]),
        p > 0 || q > p + 1,
        q < b.len() ==> is_exp_mark(b[q]),
        frac_part(b.take(q), p).len() == (if p < q { q - p - 1 } else { 0 }),
{
    let r = b.take(q);
    assert forall|i: int| 0 <= i < p implies is_digit(#[trigger] b[i]) by {
        assert(r.take(p)[i] == b[i]);
    }
    assert forall|i: int| p < i < q implies is_digit(#[trigger] b[i]) by {
        assert(r.skip(p + 1)[i - p - 1] == b[i]);
    }
    if q < b.len() {
        assert(b.skip(q)[0] == b[q]);
    }
}

/// The only layout that fits a number whose mantissa runs, digits then an
/// optional point and digits, up to `q` (`p` where its whole digits end).
proof fn lemma_number_at(b: Seq<char>, p: int, q: int, has_dot: bool, p2: int, q2: int)
    requires
        number_ok(b, p2, q2),
        0 <= p <= q <= b.len(),
        forall|i: int| 0 <= i < p ==> is_digit(#[trigger] b[i]),
        has_dot ==> p < b.len() && b[p] == '.' && q >= p + 1,
        !has_dot ==> q == p,
        forall|i: int| p < i < q ==> is_digit(#[trigger] b[i]),
        q < b.len() ==> !is_digit(b[q]) && (has_dot || b[q] != '.'),
        !has_dot && p < b.len() ==> b[p] != '.',
    ensures
        p2 == p,
        q2 == q,
{
    lemma_number_shape(b, p2, q2);
    assert(!is_digit('.'));
    assert(!is_exp_mark('.'));
    if p2 < p {
        assert(is_digit(b[p2]));
    } else if p2 > p {
        assert(is_digit(b[p]));
    }
    if q2 < q {
        if q2 > p {
            assert(is_digit(b[q2]));
        }
    } else if q2 > q {
        if q > p {
            assert(!is_digit(b[q]));
        }
    }
}

/// A number laid out as the scan found it has that layout or none.
proof fn lemma_only_layout(b: Seq<char>, p: int, q: int, has_dot: bool)
    requires
        0 <= p <= q <= b.len(),
        forall|i: int| 0 <= i < p ==> is_digit(#[trigger] b[i]),
        has_dot ==> p < b.len() && b[p] == '.' && q >= p + 1,
        !has_dot ==> q == p,
        forall|i: int| p < i < q ==> is_digit(#[trigger] b[i]),
        q < b.len() ==> !is_digit(b[q]) && (has_dot || b[q] != '.'),
        !has_dot && p < b.len() ==> b[p] != '.',
    ensures
        unsigned_micros(b) == if number_ok(b, p, q) {
            Some(micros_at(b, p, q))
        } else {
            None
        },
{
    reveal(unsigned_micros);
    assert forall|p2: int, q2: int| number_ok(b, p2, q2) implies p2 == p && q2 == q by {
        lemma_number_at(b, p, q, has_dot, p2, q2);
    }
    if number_ok(b, p, q) {
        let pq = choose|p2: int, q2: int| number_ok(b, p2, q2);
        assert(number_ok(b, pq.0, pq.1));
        assert(pq.0 == p && pq.1 == q);
    }
}

/// Clamping a shift into `[-m.len(), 19]` keeps what it gives: the same value
/// where that fits in `i64`, and no fit where it does not.
proof fn lemma_shift_clamp(m: Seq<char>, st: int, sc: int)
    requires
        sc == if st > 19 {
            19
        } else if st < -m.len() {
            -m.len()
        } else {
            st
        },
    ensures
        (kept_micros(m, st) <= i64::MAX) == (kept_micros(m, sc) <= i64::MAX),
        kept_micros(m, st) <= i64::MAX ==> kept_micros(m, st) == kept_micros(m, sc),
{
    reveal(kept_micros);
    if st >= 19 {
        lemma_kept_high(m, st);
    }
}

proof fn lemma_pow10_mono(a: nat, b: nat)
    requires
        a <= b,
    ensures
        pow10(a) <= pow10(b),
    decreases b,
{
    if a < b {
        lemma_pow10_mono(a, (b - 1) as nat);
    }
}

/// A shift of 19 or more keeps a number that does not fit in `i64` out of it,
/// and leaves one that fits (zero) as it is.
proof fn lemma_kept_high(m: Seq<char>, s: int)
    requires
        s >= 19,
    ensures
        (kept_micros(m, s) <= i64::MAX) == (kept_micros(m, 19) <= i64::MAX),
        kept_micros(m, s) <= i64::MAX ==> kept_micros(m, s) == kept_micros(m, 19),
{
    reveal(kept_micros);
    if m.len() > 0 {
        assert(m.take(m.len() as int) =~= m);
        let d = digits_value(m);
        assert(kept_micros(m, s) == d * pow10(s as nat));
        assert(kept_micros(m, 19) == d * pow10(19));
        if d == 0 {
            assert(d * pow10(s as nat) == 0) by (nonlinear_arith)
                requires
                    d == 0,
            ;
            assert(d * pow10(19) == 0) by (nonlinear_arith)
                requires
                    d == 0,
            ;
        }
        lemma_pow10_mono(19, s as nat);
        reveal_with_fuel(pow10, 20);
        assert(pow10(19) == 10_000_000_000_000_000_000);
        if d > 0 {
            assert(d * pow10(s as nat) >= pow10(s as nat)) by (nonlinear_arith)
                requires
                    d >= 1,
            ;
            assert(d * pow10(19) >= pow10(19)) by (nonlinear_arith)
                requires
                    d >= 1,
            ;
        }
    }
}

/// The digits of `cs[ilo..ihi]` then `cs[flo..fhi]`.
pub open spec fn joined(cs: Seq<char>, ilo: int, ihi: int, flo: int, fhi: int) -> Seq<char> {
    cs.subrange(ilo, ihi) + cs.subrange(flo, fhi)
}

/// The kept value of the digits `cs[ilo..ihi]` then `cs[flo..fhi]`, the last
/// standing for `10^s`, when it fits in `i64`.
fn scale_digits(cs: &Vec<char>, ilo: usize, ihi: usize, flo: usize, fhi: usize, s: i128) -> (r: Option<u64>)
    requires
        ilo <= ihi <= cs@.len(),
        flo <= fhi <= cs@.len(),
        (ihi - ilo) + (fhi - flo) <= cs@.len(),
        forall|i: int| ilo <= i < ihi ==> is_digit(#[trigger] cs@[i]),
        forall|i: int| flo <= i < fhi ==> is_digit(#[trigger] cs@[i]),
        -((ihi - ilo) + (fhi - flo)) <= s <= 19,
    ensures
        ({
            let k = kept_micros(joined(cs@, ilo as int, ihi as int, flo as int, fhi as int), s as int);
            r == if k <= i64::MAX {
                Some(k as u64)
            } else {
                None::<u64>
            }
        }),
{
    let ghost m = joined(cs@, ilo as int, ihi as int, flo as int, fhi as int);
    let n = cs.len();
    let ilen = ihi - ilo;
    assert(ilen + (fhi - flo) <= n);
    let len = ilen + (fhi - flo);
    let j: usize = if s >= 0 {
        len
    } else {
        (s + len as i128) as usize
    };
    let mut acc: u128 = 0;
    let mut x: usize = 0;
    proof {
        assert(m.take(0) =~= Seq::<char>::empty());
    }
    while x < j
        invariant
            x <= j <= len,
            len == m.len(),
            ilen == ihi - ilo,
            m == joined(cs@, ilo as int, ihi as int, flo as int, fhi as int),
            ilo <= ihi <= cs@.len(),
            flo <= fhi <= cs@.len(),
            forall|i: int| ilo <= i < ihi ==> is_digit(#[trigger] cs@[i]),
            forall|i: int| flo <= i < fhi ==> is_digit(#[trigger] cs@[i]),
            acc == if digits_value(m.take(x as int)) < 0x8000_0000_0000_0000 {
                digits_value(m.take(x as int))
            } else {
                0x8000_0000_0000_0000
            },
        decreases j - x,
    {
        let c = if x < ilen {
            cs[ilo + x]
        } else {
            cs[flo + (x - ilen)]
        };
        proof {
            assert(m[x as int] == c);
            assert(is_digit(c));
            assert(m.take(x + 1).drop_last() =~= m.take(x as int));
        }
        if acc < 0x8000_0000_0000_0000 {
            acc = acc * 10 + (c as u32 - 0x30) as u128;
            if acc > 0x8000_0000_0000_0000 {
                acc = 0x8000_0000_0000_0000;
            }
        }
        x = x + 1;
    }
    let pw: u32 = (s + len as i128 - j as i128) as u32;
    let ghost d = digits_value(m.take(j as int));
    let mut i: u32 = 0;
    proof {
        assert(pow10(0) == 1);
        assert(d * pow10(0) == d);
    }
    while i < pw
        invariant
            i <= pw <= 19,
            acc == if d * pow10(i as nat) < 0x8000_0000_0000_0000 {
                d * pow10(i as nat)
            } else {
                0x8000_0000_0000_0000
            },
        decreases pw - i,
    {
        proof {
            assert(d * pow10((i + 1) as nat) == 10 * (d * pow10(i as nat))) by (nonlinear_arith)
                requires
                    pow10((i + 1) as nat) == 10 * pow10(i as nat),
            ;
        }
        if acc < 0x8000_0000_0000_0000 {
            acc = acc * 10;
            if acc > 0x8000_0000_0000_0000 {
                acc = 0x8000_0000_0000_0000;
            }
        }
        i = i + 1;
    }
    proof {
        reveal(kept_micros);
        if j == 0 {
            assert(m.take(0) =~= Seq::<char>::empty());
            assert(d == 0);
            assert(d * pow10(pw as nat) == 0) by (nonlinear_arith)
                requires
                    d == 0,
            ;
        }
        assert(kept_micros(m, s as int) == if j == 0 {
            0
        } else {
            d * pow10(pw as nat)
        });
    }
    if acc >= 0x8000_0000_0000_0000 {
        None
    } else {
        Some(acc as u64)
    }
}

/// Where the mantissa starting at `s0` ends: its whole digits end at `r.0`,
/// and, when it has a point (`r.2`) there, its fractional digits end at `r.1`.
fn scan_mantissa(cs: &Vec<char>, s0: usize, to: usize) -> (r: (usize, usize, bool))
    requires
        s0 <= to <= cs@.len(),
    ensures
        s0 <= r.0 <= r.1 <= to,
        forall|i: int| s0 <= i < r.0 ==> is_digit(#[trigger] cs@[i]),
        r.2 ==> r.0 < to && cs@[r.0 as int] == '.' && r.1 >= r.0 + 1,
        !r.2 ==> r.1 == r.0,
        forall|i: int| r.0 < i < r.1 ==> is_digit(#[trigger] cs@[i]),
        r.1 < to ==> !is_digit(cs@[r.1 as int]) && (r.2 || cs@[r.1 as int] != '.'),
{
    let mut k: usize = s0;
    while k < to && is_digit_exec(cs[k])
        invariant
            s0 <= k <= to <= cs@.len(),
            forall|i: int| s0 <= i < k ==> is_digit(#[trigger] cs@[i]),
        decreases to - k,
    {
        k = k + 1;
    }
    let mut q: usize = k;
    let mut has_dot = false;
    if k < to && cs[k] == '.' {
        has_dot = true;
        q = k + 1;
        while q < to && is_digit_exec(cs[q])
            invariant
                k + 1 <= q <= to <= cs@.len(),
                forall|i: int| k + 1 <= i < q ==> is_digit(#[trigger] cs@[i]),
            decreases to - q,
        {
            q = q + 1;
        }
    }
    (k, q, has_dot)
}

/// The exponent `cs[q..to]`: absent unless it is empty or well formed; else
/// whether it is negative, and its digits' value held up to `2^70`.
fn scan_exponent(cs: &Vec<char>, q: usize, to: usize) -> (r: Option<(bool, u128)>)
    requires
        q <= to <= cs@.len(),
    ensures
        ({
            let x = cs@.subrange(q as int, to as int);
            &&& r is Some <==> exp_ok(x)
            &&& r is Some ==> ({
                let v = if x.len() == 0 {
                    0
                } else {
                    digits_value(exp_digits(x))
                };
                let pr = r->0;
                &&& pr.0 == (x.len() > 1 && x[1] == '-')
                &&& pr.1 == if v < 0x40_0000_0000_0000_0000 {
                    v
                } else {
                    0x40_0000_0000_0000_0000
                }
            })
        }),
{
    let ghost x = cs@.subrange(q as int, to as int);
    if q == to {
        return Some((false, 0));
    }
    if !(cs[q] == 'e' || cs[q] == 'E') {
        return None;
    }
    let mut d: usize = q + 1;
    let mut eneg = false;
    if d < to && (cs[d] == '+' || cs[d] == '-') {
        eneg = cs[d] == '-';
        d = d + 1;
    }
    let d0 = d;
    proof {
        assert(exp_digits(x) =~= cs@.subrange(d0 as int, to as int));
    }
    while d < to && is_digit_exec(cs[d])
        invariant
            d0 <= d <= to <= cs@.len(),
            forall|i: int| d0 <= i < d ==> is_digit(#[trigger] cs@[i]),
        decreases to - d,
    {
        d = d + 1;
    }
    if d0 == to || d < to {
        proof {
            if d < to {
                assert(exp_digits(x)[d - d0] == cs@[d as int]);
            }
        }
        return None;
    }
    let mut esat: u128 = 0;
    let mut y: usize = d0;
    proof {
        assert(cs@.subrange(d0 as int, d0 as int) =~= Seq::<char>::empty());
    }
    while y < to
        invariant
            d0 <= y <= to <= cs@.len(),
            forall|i: int| d0 <= i < to ==> is_digit(#[trigger] cs@[i]),
            esat == if digits_value(cs@.subrange(d0 as int, y as int)) < 0x40_0000_0000_0000_0000 {
                digits_value(cs@.subrange(d0 as int, y as int))
            } else {
                0x40_0000_0000_0000_0000
            },
        decreases to - y,
    {
        proof {
            assert(cs@.subrange(d0 as int, y + 1).drop_last() =~= cs@.subrange(d0 as int, y as int));
            assert(is_digit(cs@[y as int]));
        }
        if esat < 0x40_0000_0000_0000_0000 {
            esat = esat * 10 + (cs[y] as u32 - 0x30) as u128;
            if esat > 0x40_0000_0000_0000_0000 {
                esat = 0x40_0000_0000_0000_0000;
            }
        }
        y = y + 1;
    }
    Some((eneg, esat))
}

/// The value, in millionths, of the number `cs[from..to]`.
#[verifier::rlimit(100)]
#[verifier::spinoff_prover]
fn parse_decimal(cs: &Vec<char>, from: usize, to: usize) -> (r: Option<i64>)
    requires
        from <= to <= cs@.len(),
    ensures
        r == decimal_micros(cs@.subrange(from as int, to as int)),
{
    let ghost t = cs@.subrange(from as int, to as int);
    let mut s0: usize = from;
    let mut neg = false;
    if from < to && (cs[from] == '-' || cs[from] == '+') {
        neg = cs[from] == '-';
        s0 = from + 1;
    }
    let ghost signed = t.len() > 0 && (t[0] == '-' || t[0] == '+');
    let ghost b = cs@.subrange(s0 as int, to as int);
    proof {
        assert(b =~= if signed {
            t.drop_first()
        } else {
            t
        });
        assert(neg == (signed && t[0] == '-'));
    }
    let (k, q, has_dot) = scan_mantissa(cs, s0, to);
    let flo: usize = if has_dot {
        k + 1
    } else {
        k
    };
    let ghost p = k - s0;
    let ghost qq = q - s0;
    proof {
        assert(forall|i: int| 0 <= i < b.len() ==> #[trigger] b[i] == cs@[s0 + i]);
        assert(b.skip(qq) =~= cs@.subrange(q as int, to as int));
        lemma_only_layout(b, p, qq, has_dot);
    }
    if k == s0 && q <= flo {
        return None;
    }
    let ex = scan_exponent(cs, q, to);
    let (eneg, esat) = match ex {
        None => {
            return None;
        },
        Some(v) => v,
    };
    let ghost m = joined(cs@, s0 as int, k as int, flo as int, q as int);
    let ghost ev = exp_value(b.skip(qq));
    let ghost flen_g = frac_part(b.take(qq), p).len();
    proof {
        assert(number_ok(b, p, qq)) by {
            let r = b.take(qq);
            assert(r.take(p) =~= b.take(p));
            if has_dot {
                assert(r[p] == '.');
            }
            assert(all_digits(r.take(p)));
            if p < qq {
                assert(all_digits(r.skip(p + 1))) by {
                    assert forall|i: int| 0 <= i < r.skip(p + 1).len() implies is_digit(
                        #[trigger] r.skip(p + 1)[i],
                    ) by {
                        assert(r.skip(p + 1)[i] == b[p + 1 + i]);
                    }
                }
            }
        }
        assert(mant_digits(b, p, qq) =~= m);
        assert(flen_g == q - flo);
    }
    let ilen = k - s0;
    let flen = q - flo;
    let len = ilen + flen;
    let e: i128 = if eneg {
        -(esat as i128)
    } else {
        esat as i128
    };
    let sh: i128 = 6 + e - flen as i128;
    let sc: i128 = if sh > 19 {
        19
    } else if sh < -(len as i128) {
        -(len as i128)
    } else {
        sh
    };
    proof {
        let st = 6 + ev - flen_g;
        assert(m.len() == len);
        if esat < 0x40_0000_0000_0000_0000 {
            assert(sh == st);
        }
        lemma_shift_clamp(m, st, sc as int);
    }
    match scale_digits(cs, s0, k, flo, q, sc) {
        None => None,
        Some(v) => {
            let w = v as i64;
            if neg {
                Some(-w)
            } else {
                Some(w)
            }
        },
    }
}

/// The sample that `cs[from..to]` gives, read as one line.
fn parse_line_chars(cs: &Vec<char>, from: usize, to: usize) -> (r: Option<InputData>)
    requires
        from <= to <= cs@.len(),
    ensures
        r is Some <==> parse_line_spec(cs@.subrange(from as int, to as int)) is Some,
        r is Some ==> sample_is(r->0, parse_line_spec(cs@.subrange(from as int, to as int))->0),
{
    let spans = split_spans(cs, from, to, false);
    let ghost w = words(cs@.subrange(from as int, to as int));
    if spans.len() != 2 {
        return None;
    }
    let (a0, a1) = spans[0];
    let (b0, b1) = spans[1];
    proof {
        assert(w[0] == cs@.subrange(a0 as int, a1 as int));
        assert(w[1] == cs@.subrange(b0 as int, b1 as int));
    }
    match parse_decimal(cs, b0, b1) {
        Some(v) => Some(InputData::new(string_of(cs, a0, a1), v)),
        None => None,
    }
}

/// The sample that one line of pasted text gives: present when the line holds
/// exactly two white-space separated words and the second is a decimal number,
/// with an optional sign and an optional exponent (`12`, `-3.25`, `.5`, `+7.`,
/// `1e3`, `2.5E-4`), whose millionths fit in `i64`. The value is kept in
/// millionths: digits past the sixth decimal place are cut off, and a magnitude
/// above about 9.2e12 gives no sample. The key and the name are the first word;
/// no volume is set.
pub fn parse_imagej_line(line: &str) -> (r: Option<InputData>)
    ensures
        r is Some <==> parse_line_spec(line@) is Some,
        r is Some ==> sample_is(r->0, parse_line_spec(line@)->0),
{
    let cs = chars_of(line);
    proof {
        assert(cs@.subrange(0, cs@.len() as int) =~= line@);
    }
    parse_line_chars(&cs, 0, cs.len())
}

/// The samples that the lines of `text` give, in line order; lines that give
/// none are passed over.
pub fn parse_text(text: &str) -> (r: Vec<InputData>)
    ensures
        r@.len() == parsed_text(text@).len(),
        forall|k: int| 0 <= k < r@.len() ==> sample_is(#[trigger] r@[k], parsed_text(text@)[k]),
{
    let cs = chars_of(text);
    let n = cs.len();
    let ls = split_spans(&cs, 0, n, true);
    let ghost pl = lines(text@).map_values(|l: Seq<char>| parse_line_spec(l));
    proof {
        assert(cs@.subrange(0, n as int) =~= text@);
        assert(pl.take(0) =~= Seq::<Option<(Seq<char>, i64)>>::empty());
    }
    let mut out: Vec<InputData> = Vec::new();
    let mut i: usize = 0;
    while i < ls.len()
        invariant
            0 <= i <= ls@.len(),
            n == cs@.len(),
            cs@ == text@,
            span_pieces(cs@, ls@) == lines(text@),
            pl == lines(text@).map_values(|l: Seq<char>| parse_line_spec(l)),
            forall|k: int| 0 <= k < ls@.len() ==> 0 <= (#[trigger] ls@[k]).0 <= ls@[k].1 <= n,
            out@.len() == somes(pl.take(i as int)).len(),
            forall|k: int|
                0 <= k < out@.len() ==> sample_is(#[trigger] out@[k], somes(pl.take(i as int))[k]),
        decreases ls@.len() - i,
    {
        let (a, b) = ls[i];
        let ghost before = somes(pl.take(i as int));
        let ghost old_out = out@;
        proof {
            assert(pl.take(i + 1).drop_last() =~= pl.take(i as int));
            assert(pl[i as int] == parse_line_spec(cs@.subrange(a as int, b as int)));
        }
        match parse_line_chars(&cs, a, b) {
            Some(d) => {
                out.push(d);
                proof {
                    assert forall|k: int| 0 <= k < out@.len() implies sample_is(
                        #[trigger] out@[k],
                        somes(pl.take(i + 1))[k],
                    ) by {
                        if k < old_out.len() {
                            assert(out@[k] == old_out[k]);
                        }
                    }
                }
            },
            None => {
                proof {
                    assert(somes(pl.take(i + 1)) =~= before);
                }
            },
        }
        i = i + 1;
    }
    proof {
        assert(pl.take(ls@.len() as int) =~= pl);
    }
    out
}

/// The samples of pasted `text`, or `NoValidData` when no line gives one.
pub fn read_clipboard(text: &str) -> (r: Result<Vec<InputData>, CommandError>)
    ensures
        r is Err <==> parsed_text(text@).len() == 0,
        r is Err ==> r == Err::<Vec<InputData>, CommandError>(CommandError::NoValidData),
        r is Ok ==> r->Ok_0@.len() == parsed_text(text@).len() && forall|k: int|
            0 <= k < r->Ok_0@.len() ==> sample_is(#[trigger] r->Ok_0@[k], parsed_text(text@)[k]),
{
    let samples = parse_text(text);
    if samples.len() == 0 {
        Err(CommandError::NoValidData)
    } else {
        Ok(samples)
    }
}

} // verus!
