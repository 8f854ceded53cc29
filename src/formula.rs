use vstd::arithmetic::div_mod::{lemma_div_denominator, lemma_fundamental_div_mod_converse};
use vstd::prelude::*;
use vstd::string::*;

use crate::fixed::{abs, floor_div};
use crate::SCALE;

verus! {

// ---------------------------------------------------------------------------------------
// Textual substitution
// ---------------------------------------------------------------------------------------

/// `s` with every occurrence of `pat` replaced by `rep`, matched from the left without
/// overlaps; an empty pattern replaces nothing.
pub open spec fn replace_all(s: Seq<char>, pat: Seq<char>, rep: Seq<char>) -> Seq<char>
    decreases s.len(),
{
    if pat.len() == 0 || s.len() < pat.len() {
        s
    } else if s.subrange(0, pat.len() as int) == pat {
        rep + replace_all(s.subrange(pat.len() as int, s.len() as int), pat, rep)
    } else {
        seq![s[0]] + replace_all(s.drop_first(), pat, rep)
    }
}

/// `s` with each name replaced by its text, one name after the other, in order.
pub open spec fn substitute(s: Seq<char>, vars: Seq<(Seq<char>, Seq<char>)>) -> Seq<char>
    decreases vars.len(),
{
    if vars.len() == 0 {
        s
    } else {
        replace_all(substitute(s, vars.drop_last()), vars.last().0, vars.last().1)
    }
}

// ---------------------------------------------------------------------------------------
// Decimal text of fixed-point values
// ---------------------------------------------------------------------------------------

pub open spec fn digit_char(d: int) -> char {
    if d == 0 {
        '0'
    } else if d == 1 {
        '1'
    } else if d == 2 {
        '2'
    } else if d == 3 {
        '3'
    } else if d == 4 {
        '4'
    } else if d == 5 {
        '5'
    } else if d == 6 {
        '6'
    } else if d == 7 {
        '7'
    } else if d == 8 {
        '8'
    } else {
        '9'
    }
}

/// Decimal digits of `n`, without leading zeros.
pub open spec fn digits(n: nat) -> Seq<char>
    decreases n,
{
    if n < 10 {
        seq![digit_char(n as int)]
    } else {
        digits(n / 10).push(digit_char((n % 10) as int))
    }
}

/// The three decimals of `f` (`0 < f < 1000`), trailing zeros left out.
pub open spec fn frac_digits(f: int) -> Seq<char> {
    let d1 = f / 100;
    let d2 = (f / 10) % 10;
    let d3 = f % 10;
    if d3 != 0 {
        seq![digit_char(d1), digit_char(d2), digit_char(d3)]
    } else if d2 != 0 {
        seq![digit_char(d1), digit_char(d2)]
    } else {
        seq![digit_char(d1)]
    }
}

/// Shortest decimal text of `v` thousandths: `60000` is `60`, `1500` is `1.5`,
/// `-250` is `-0.25`.
pub open spec fn fmt_fixed(v: int) -> Seq<char> {
    let a = abs(v);
    let sign = if v < 0 {
        seq!['-']
    } else {
        Seq::empty()
    };
    let f = a % 1000;
    let tail = if f == 0 {
        Seq::empty()
    } else {
        seq!['.'] + frac_digits(f)
    };
    sign + digits((a / 1000) as nat) + tail
}

// ---------------------------------------------------------------------------------------
// Tokens
// ---------------------------------------------------------------------------------------

/// The characters with the Unicode White_Space property.
pub open spec fn is_ws(c: char) -> bool {
    ('\t' <= c && c <= '\r') || c == ' ' || c == '\u{85}' || c == '\u{a0}' || c == '\u{1680}' || (
    '\u{2000}' <= c && c <= '\u{200a}') || c == '\u{2028}' || c == '\u{2029}' || c == '\u{202f}'
        || c == '\u{205f}' || c == '\u{3000}'
}

fn is_ws_exec(c: char) -> (r: bool)
    ensures
        r == is_ws(c),
{
    ('\t' <= c && c <= '\r') || c == ' ' || c == '\u{85}' || c == '\u{a0}' || c == '\u{1680}' || (
    '\u{2000}' <= c && c <= '\u{200a}') || c == '\u{2028}' || c == '\u{2029}' || c == '\u{202f}'
        || c == '\u{205f}' || c == '\u{3000}'
}

/// Scan of `s` from the left: the words ended by whitespace, and the word being read.
pub open spec fn ws_scan(s: Seq<char>) -> (Seq<Seq<char>>, Seq<char>)
    decreases s.len(),
{
    if s.len() == 0 {
        (Seq::empty(), Seq::empty())
    } else {
        let prev = ws_scan(s.drop_last());
        if is_ws(s.last()) {
            if prev.1.len() > 0 {
                (prev.0.push(prev.1), Seq::empty())
            } else {
                (prev.0, Seq::empty())
            }
        } else {
            (prev.0, prev.1.push(s.last()))
        }
    }
}

/// The words of `s`: its maximal runs of characters other than whitespace.
pub open spec fn tokens_of(s: Seq<char>) -> Seq<Seq<char>> {
    let scan = ws_scan(s);
    if scan.1.len() > 0 {
        scan.0.push(scan.1)
    } else {
        scan.0
    }
}

// ---------------------------------------------------------------------------------------
// Numbers
// ---------------------------------------------------------------------------------------

pub open spec fn is_digit(c: char) -> bool {
    '0' <= c && c <= '9'
}

pub open spec fn digit_val(c: char) -> int {
    c as int - '0' as int
}

pub open spec fn all_digits(s: Seq<char>) -> bool {
    forall|i: int| 0 <= i < s.len() ==> #[trigger] is_digit(s[i])
}

pub open spec fn digits_value(s: Seq<char>) -> int
    decreases s.len(),
{
    if s.len() == 0 {
        0
    } else {
        10 * digits_value(s.drop_last()) + digit_val(s.last())
    }
}

/// Position of the first `.` in `s`, or its length.
pub open spec fn dot_pos(s: Seq<char>) -> int
    decreases s.len(),
{
    if s.len() == 0 {
        0
    } else if s[0] == '.' {
        0
    } else {
        1 + dot_pos(s.drop_first())
    }
}

/// The first three decimals of `f`, as thousandths (missing ones count as zero).
pub open spec fn frac_value(f: Seq<char>) -> int {
    digits_value((f + seq!['0', '0', '0']).subrange(0, 3))
}

pub open spec fn fits_i64(v: int) -> bool {
    i64::MIN <= v <= i64::MAX
}

/// Thousandths written by `body`: digits, optionally a `.` and more digits, at least one
/// digit in all; decimals past the third are dropped.
pub open spec fn unsigned_value(body: Seq<char>) -> Option<int> {
    let p = dot_pos(body);
    let ip = body.subrange(0, p);
    let fp = if p < body.len() {
        body.subrange(p + 1, body.len() as int)
    } else {
        Seq::empty()
    };
    if all_digits(ip) && all_digits(fp) && ip.len() + fp.len() > 0 {
        Some(digits_value(ip) * 1000 + frac_value(fp))
    } else {
        None
    }
}

/// Position of the first `e` or `E` in `s`, or its length.
pub open spec fn exp_pos(s: Seq<char>) -> int
    decreases s.len(),
{
    if s.len() == 0 {
        0
    } else if s[0] == 'e' || s[0] == 'E' {
        0
    } else {
        1 + exp_pos(s.drop_first())
    }
}

pub open spec fn pow10(n: nat) -> int
    decreases n,
{
    if n == 0 {
        1
    } else {
        10 * pow10((n - 1) as nat)
    }
}

/// The exponent after an `e`: an optional sign and at least one digit.
pub open spec fn exponent_value(s: Seq<char>) -> Option<int> {
    let signed = s.len() > 0 && (s[0] == '-' || s[0] == '+');
    let ds = if signed {
        s.drop_first()
    } else {
        s
    };
    if ds.len() > 0 && all_digits(ds) {
        Some(
            if s.len() > 0 && s[0] == '-' {
                -digits_value(ds)
            } else {
                digits_value(ds)
            },
        )
    } else {
        None
    }
}

/// `m` times ten to the `e`, rounded down.
pub open spec fn scale_pow10(m: int, e: int) -> int {
    if e >= 0 {
        m * pow10(e as nat)
    } else {
        m / pow10((-e) as nat)
    }
}

/// Thousandths written by `body`: a mantissa as `unsigned_value` reads it, of at most
/// 2^63 thousandths, optionally followed by `e` or `E` and a decimal exponent; the value
/// is rounded down to thousandths.
pub open spec fn number_value(body: Seq<char>) -> Option<int> {
    let q = exp_pos(body);
    if q == body.len() {
        unsigned_value(body)
    } else {
        match unsigned_value(body.subrange(0, q)) {
            Some(m) => if m <= 0x8000_0000_0000_0000 {
                match exponent_value(body.subrange(q + 1, body.len() as int)) {
                    Some(e) => Some(scale_pow10(m, e)),
                    None => None,
                }
            } else {
                None
            },
            None => None,
        }
    }
}

/// The fixed-point number a token writes, with an optional sign; absent where the token
/// is no number or the number does not fit in `i64` (no infinities or NaN).
pub open spec fn parse_fixed(tok: Seq<char>) -> Option<int> {
    let signed = if tok.len() > 0 && tok[0] == '-' {
        match number_value(tok.drop_first()) {
            Some(v) => Some(-v),
            None => None,
        }
    } else if tok.len() > 0 && tok[0] == '+' {
        number_value(tok.drop_first())
    } else {
        number_value(tok)
    };
    match signed {
        Some(v) => if fits_i64(v) {
            Some(v)
        } else {
            None
        },
        None => None,
    }
}

// ---------------------------------------------------------------------------------------
// Evaluation
// ---------------------------------------------------------------------------------------

/// `x / y` rounded down.
pub open spec fn div_floor(x: int, y: int) -> int {
    if y > 0 {
        x / y
    } else {
        (-x) / (-y)
    }
}

/// `v` brought within the range of `i64`.
pub open spec fn clamp_i64(v: int) -> int {
    if v > i64::MAX {
        i64::MAX as int
    } else if v < i64::MIN {
        i64::MIN as int
    } else {
        v
    }
}

/// `a op b` on thousandths; absent for an unknown operator and for `0 / 0`. A nonzero
/// value divided by zero is the largest or smallest value, by its sign.
pub open spec fn apply_op(op: Seq<char>, a: int, b: int) -> Option<int> {
    if op == seq!['+'] {
        Some(a + b)
    } else if op == seq!['-'] {
        Some(a - b)
    } else if op == seq!['*'] {
        Some(div_floor(a * b, SCALE as int))
    } else if op == seq!['/'] {
        if b == 0 {
            if a == 0 {
                None
            } else if a > 0 {
                Some(i64::MAX as int)
            } else {
                Some(i64::MIN as int)
            }
        } else {
            Some(div_floor(a * SCALE, b))
        }
    } else {
        None
    }
}

/// Value of `acc` followed by the operator/operand pairs of `toks` from position `i`,
/// strictly from left to right; each intermediate result saturates at the bounds of `i64`.
pub open spec fn eval_from(toks: Seq<Seq<char>>, i: int, acc: int) -> Option<int>
    decreases toks.len() - i,
{
    if i >= toks.len() {
        Some(acc)
    } else if i + 1 >= toks.len() {
        None
    } else {
        match parse_fixed(toks[i + 1]) {
            None => None,
            Some(b) => match apply_op(toks[i], acc, b) {
                None => None,
                Some(v) => eval_from(toks, i + 2, clamp_i64(v)),
            },
        }
    }
}

pub open spec fn eval_tokens(toks: Seq<Seq<char>>) -> Option<int> {
    if toks.len() == 0 {
        None
    } else {
        match parse_fixed(toks[0]) {
            None => None,
            Some(v) => eval_from(toks, 1, v),
        }
    }
}

/// Names with the text of their values.
pub open spec fn rendered(metrics: Seq<(&str, i64)>) -> Seq<(Seq<char>, Seq<char>)> {
    metrics.map_values(|m: (&str, i64)| (m.0@, fmt_fixed(m.1 as int)))
}

/// Value of a formula: names replaced by their values, then evaluated.
pub open spec fn formula_value(formula: Seq<char>, metrics: Seq<(&str, i64)>) -> Option<int> {
    eval_tokens(tokens_of(substitute(formula, rendered(metrics))))
}

// ---------------------------------------------------------------------------------------
// Executable parts
// ---------------------------------------------------------------------------------------

fn chars_of(s: &str) -> (r: Vec<char>)
    ensures
        r@ == s@,
{
    let n = s.unicode_len();
    let mut r: Vec<char> = Vec::new();
    let mut i: usize = 0;
    while i < n
        invariant
            n == s@.len(),
            i <= n,
            r@ == s@.subrange(0, i as int),
        decreases n - i,
    {
        r.push(s.get_char(i));
        i = i + 1;
        assert(r@ =~= s@.subrange(0, i as int));
    }
    assert(s@.subrange(0, n as int) =~= s@);
    r
}

fn matches_at(s: &Vec<char>, i: usize, pat: &Vec<char>) -> (r: bool)
    requires
        i + pat.len() <= s.len(),
    ensures
        r == (s@.subrange(i as int, i + pat.len()) == pat@),
{
    let mut j: usize = 0;
    while j < pat.len()
        invariant
            j <= pat.len(),
            i + pat.len() <= s.len(),
            forall|k: int| 0 <= k < j ==> s@[i + k] == pat@[k],
        decreases pat.len() - j,
    {
        if s[i + j] != pat[j] {
            assert(s@.subrange(i as int, i + pat.len())[j as int] != pat@[j as int]);
            return false;
        }
        j = j + 1;
    }
    assert(s@.subrange(i as int, i + pat.len()) =~= pat@);
    true
}

fn replace_chars(s: &Vec<char>, pat: &Vec<char>, rep: &Vec<char>) -> (r: Vec<char>)
    ensures
        r@ == replace_all(s@, pat@, rep@),
{
    let n = s.len();
    let mut out: Vec<char> = Vec::new();
    let mut i: usize = 0;
    assert(s@.subrange(0, n as int) =~= s@);
    while i < n
        invariant
            n == s.len(),
            i <= n,
            out@ + replace_all(s@.subrange(i as int, n as int), pat@, rep@) == replace_all(
                s@,
                pat@,
                rep@,
            ),
        decreases n - i,
    {
        let ghost rest = s@.subrange(i as int, n as int);
        if pat.len() > 0 && pat.len() <= n - i && matches_at(s, i, pat) {
            assert(rest.subrange(0, pat.len() as int) =~= s@.subrange(i as int, i + pat.len()));
            assert(rest.subrange(pat.len() as int, rest.len() as int) =~= s@.subrange(
                i + pat.len(),
                n as int,
            ));
            let mut k: usize = 0;
            let ghost out0 = out@;
            while k < rep.len()
                invariant
                    k <= rep.len(),
                    out@ == out0 + rep@.subrange(0, k as int),
                decreases rep.len() - k,
            {
                out.push(rep[k]);
                k = k + 1;
                assert(out@ =~= out0 + rep@.subrange(0, k as int));
            }
            assert(rep@.subrange(0, rep.len() as int) =~= rep@);
            assert(out@ + replace_all(s@.subrange(i + pat.len(), n as int), pat@, rep@) =~= out0
                + replace_all(rest, pat@, rep@));
            i = i + pat.len();
        } else {
            assert(rest.drop_first() =~= s@.subrange(i + 1, n as int));
            if pat.len() > 0 && pat.len() <= n - i {
                assert(rest.subrange(0, pat.len() as int) =~= s@.subrange(
                    i as int,
                    i + pat.len(),
                ));
            }
            let ghost out0 = out@;
            out.push(s[i]);
            if pat.len() == 0 || n - i < pat.len() {
                assert(replace_all(rest, pat@, rep@) == rest);
                assert(rest.drop_first().len() < pat.len() || pat.len() == 0);
                assert(replace_all(rest.drop_first(), pat@, rep@) == rest.drop_first());
                assert(out@ + rest.drop_first() =~= out0 + rest);
            } else {
                assert(out@ + replace_all(rest.drop_first(), pat@, rep@) =~= out0 + replace_all(
                    rest,
                    pat@,
                    rep@,
                ));
            }
            i = i + 1;
        }
    }
    assert(s@.subrange(n as int, n as int) =~= Seq::<char>::empty());
    assert(out@ + Seq::<char>::empty() =~= out@);
    out
}

fn digit_char_exec(d: u64) -> (c: char)
    requires
        d < 10,
    ensures
        c == digit_char(d as int),
{
    if d == 0 {
        '0'
    } else if d == 1 {
        '1'
    } else if d == 2 {
        '2'
    } else if d == 3 {
        '3'
    } else if d == 4 {
        '4'
    } else if d == 5 {
        '5'
    } else if d == 6 {
        '6'
    } else if d == 7 {
        '7'
    } else if d == 8 {
        '8'
    } else {
        '9'
    }
}

fn push_digits(out: &mut Vec<char>, n: u64)
    ensures
        final(out)@ == old(out)@ + digits(n as nat),
    decreases n,
{
    if n >= 10 {
        push_digits(out, n / 10);
    }
    let c = digit_char_exec(n % 10);
    out.push(c);
    if n >= 10 {
        assert(out@ =~= old(out)@ + digits(n as nat));
    } else {
        assert(out@ =~= old(out)@ + digits(n as nat));
    }
}

/// Decimal text of `v` thousandths, as `fmt_fixed` gives it.
fn fixed_text(v: i64) -> (r: Vec<char>)
    ensures
        r@ == fmt_fixed(v as int),
{
    let mut out: Vec<char> = Vec::new();
    let a: u64 = if v < 0 {
        (-(v as i128)) as u64
    } else {
        v as u64
    };
    if v < 0 {
        out.push('-');
    }
    push_digits(&mut out, a / 1000);
    let f: u64 = a % 1000;
    let ghost head = out@;
    if f != 0 {
        out.push('.');
        out.push(digit_char_exec(f / 100));
        let d2 = (f / 10) % 10;
        let d3 = f % 10;
        if d3 != 0 {
            out.push(digit_char_exec(d2));
            out.push(digit_char_exec(d3));
        } else if d2 != 0 {
            out.push(digit_char_exec(d2));
        }
        assert(out@ =~= head + (seq!['.'] + frac_digits(f as int)));
    } else {
        assert(out@ =~= head + Seq::<char>::empty());
    }
    assert(out@ =~= fmt_fixed(v as int));
    out
}

pub open spec fn word_views(v: Seq<Vec<char>>) -> Seq<Seq<char>> {
    v.map_values(|t: Vec<char>| t@)
}

fn tokenize(s: &Vec<char>) -> (r: Vec<Vec<char>>)
    ensures
        word_views(r@) == tokens_of(s@),
{
    let n = s.len();
    let mut toks: Vec<Vec<char>> = Vec::new();
    let mut cur: Vec<char> = Vec::new();
    let mut i: usize = 0;
    while i < n
        invariant
            n == s.len(),
            i <= n,
            ws_scan(s@.subrange(0, i as int)) == (toks@.map_values(|t: Vec<char>| t@), cur@),
        decreases n - i,
    {
        let ghost pre = s@.subrange(0, i as int);
        assert(s@.subrange(0, i + 1).drop_last() =~= pre);
        let ghost t0 = toks@.map_values(|t: Vec<char>| t@);
        let c = s[i];
        if is_ws_exec(c) {
            if cur.len() > 0 {
                let ghost word = cur@;
                let mut done: Vec<char> = Vec::new();
                std::mem::swap(&mut done, &mut cur);
                toks.push(done);
                assert(toks@.map_values(|t: Vec<char>| t@) =~= t0.push(word));
            }
            assert(cur@ =~= Seq::<char>::empty());
        } else {
            cur.push(c);
        }
        i = i + 1;
    }
    assert(s@.subrange(0, n as int) =~= s@);
    if cur.len() > 0 {
        let ghost t0 = toks@.map_values(|t: Vec<char>| t@);
        let ghost word = cur@;
        toks.push(cur);
        assert(toks@.map_values(|t: Vec<char>| t@) =~= t0.push(word));
    }
    toks
}

proof fn lemma_digits_prefix(s: Seq<char>, i: int)
    requires
        0 <= i <= s.len(),
        all_digits(s),
    ensures
        0 <= digits_value(s.subrange(0, i)) <= digits_value(s),
    decreases s.len() - i,
{
    if i < s.len() {
        lemma_digits_prefix(s, i + 1);
        let t = s.subrange(0, i + 1);
        assert(t.drop_last() =~= s.subrange(0, i));
        assert(is_digit(s[i]));
    } else {
        assert(s.subrange(0, i) =~= s);
        lemma_digits_nonneg(s);
    }
}

proof fn lemma_digits_nonneg(s: Seq<char>)
    requires
        all_digits(s),
    ensures
        digits_value(s) >= 0,
    decreases s.len(),
{
    if s.len() > 0 {
        assert(all_digits(s.drop_last()));
        lemma_digits_nonneg(s.drop_last());
        assert(is_digit(s[s.len() - 1]));
    }
}

proof fn lemma_dot_pos(s: Seq<char>, p: int)
    requires
        0 <= p <= s.len(),
        forall|k: int| 0 <= k < p ==> s[k] != '.',
        p == s.len() || s[p] == '.',
    ensures
        dot_pos(s) == p,
    decreases p,
{
    if p > 0 {
        lemma_dot_pos(s.drop_first(), p - 1);
    }
}

proof fn lemma_dot_pos_bound(s: Seq<char>)
    ensures
        0 <= dot_pos(s) <= s.len(),
        forall|k: int| 0 <= k < dot_pos(s) ==> s[k] != '.',
        dot_pos(s) == s.len() || s[dot_pos(s)] == '.',
    decreases s.len(),
{
    if s.len() > 0 && s[0] != '.' {
        lemma_dot_pos_bound(s.drop_first());
        assert forall|k: int| 0 <= k < dot_pos(s) implies s[k] != '.' by {
            if k > 0 {
                assert(s[k] == s.drop_first()[k - 1]);
            }
        }
    }
}

fn all_digits_exec(tok: &Vec<char>, a: usize, b: usize) -> (r: bool)
    requires
        a <= b <= tok.len(),
    ensures
        r == all_digits(tok@.subrange(a as int, b as int)),
{
    let mut i: usize = a;
    while i < b
        invariant
            a <= i <= b <= tok.len(),
            forall|k: int| a <= k < i ==> is_digit(#[trigger] tok@[k]),
        decreases b - i,
    {
        if !('0' <= tok[i] && tok[i] <= '9') {
            assert(!is_digit(tok@.subrange(a as int, b as int)[i - a]));
            return false;
        }
        i = i + 1;
    }
    assert forall|k: int| 0 <= k < b - a implies #[trigger] is_digit(
        tok@.subrange(a as int, b as int)[k],
    ) by {
        assert(tok@.subrange(a as int, b as int)[k] == tok@[a + k]);
    }
    true
}

fn digit_of(c: char) -> (d: i128)
    requires
        is_digit(c),
    ensures
        d == digit_val(c),
        0 <= d <= 9,
{
    (c as u32 - '0' as u32) as i128
}

/// Reads an unsigned number from `tok[start..end]`.
fn parse_unsigned(tok: &Vec<char>, start: usize, end: usize) -> (r: Option<i128>)
    requires
        start <= end <= tok.len(),
    ensures
        ({
            let body = tok@.subrange(start as int, end as int);
            match unsigned_value(body) {
                Some(v) => if v <= 0x8000_0000_0000_0000 {
                    r matches Some(x) && x == v
                } else {
                    r is None
                },
                None => r is None,
            }
        }),
        r matches Some(v) ==> 0 <= v <= 0x8000_0000_0000_0000,
{
    let n = end;
    let ghost body = tok@.subrange(start as int, n as int);
    let mut p: usize = start;
    while p < n && tok[p] != '.'
        invariant
            start <= p <= n,
            n == end,
            end <= tok.len(),
            forall|k: int| start <= k < p ==> tok@[k] != '.',
        decreases n - p,
    {
        p = p + 1;
    }
    proof {
        assert forall|k: int| 0 <= k < p - start implies body[k] != '.' by {
            assert(body[k] == tok@[start + k]);
        }
        lemma_dot_pos(body, p - start);
    }
    let ghost ip = body.subrange(0, p - start);
    assert(ip =~= tok@.subrange(start as int, p as int));
    let frac_start: usize = if p < n {
        p + 1
    } else {
        n
    };
    let ghost fp = if p < n {
        body.subrange(p - start + 1, body.len() as int)
    } else {
        Seq::<char>::empty()
    };
    assert(fp =~= tok@.subrange(frac_start as int, n as int));
    if !all_digits_exec(tok, start, p) || !all_digits_exec(tok, frac_start, n) {
        return None;
    }
    if p == start && frac_start == n {
        return None;
    }
    let mut ipv: i128 = 0;
    let mut i: usize = start;
    while i < p
        invariant
            start <= i <= p <= n,
            n == end,
            end <= tok.len(),
            body == tok@.subrange(start as int, n as int),
            dot_pos(body) == p - start,
            ip == body.subrange(0, p - start),
            fp == if p < n {
                body.subrange(p - start + 1, body.len() as int)
            } else {
                Seq::<char>::empty()
            },
            ip == tok@.subrange(start as int, p as int),
            all_digits(ip),
            frac_start <= n,
            fp == tok@.subrange(frac_start as int, n as int),
            all_digits(fp),
            ipv == digits_value(tok@.subrange(start as int, i as int)),
            0 <= ipv <= 0x1_0000_0000_0000_0000,
        decreases p - i,
    {
        assert(tok@.subrange(start as int, i + 1).drop_last() =~= tok@.subrange(
            start as int,
            i as int,
        ));
        assert(is_digit(ip[i - start]));
        ipv = ipv * 10 + digit_of(tok[i]);
        i = i + 1;
        assert(ipv == digits_value(tok@.subrange(start as int, i as int)));
        if ipv > 0x1_0000_0000_0000_0000 {
            proof {
                let pad = (fp + seq!['0', '0', '0']).subrange(0, 3);
                assert forall|m: int| 0 <= m < pad.len() implies #[trigger] is_digit(pad[m]) by {
                    if m < fp.len() {
                        assert(is_digit(fp[m]));
                    }
                }
                lemma_digits_nonneg(pad);
                assert(ip.subrange(0, i - start) =~= tok@.subrange(start as int, i as int));
                lemma_digits_prefix(ip, i - start);
            }
            return None;
        }
    }
    assert(ip =~= tok@.subrange(start as int, p as int));
    let ghost padded = fp + seq!['0', '0', '0'];
    let mut frac: i128 = 0;
    let mut k: usize = 0;
    while k < 3
        invariant
            k <= 3,
            frac_start <= n,
            n == end,
            end <= tok.len(),
            fp == tok@.subrange(frac_start as int, n as int),
            all_digits(fp),
            padded == fp + seq!['0', '0', '0'],
            frac == digits_value(padded.subrange(0, k as int)),
            0 <= frac < if k == 0 {
                1int
            } else if k == 1 {
                10int
            } else if k == 2 {
                100int
            } else {
                1000int
            },
        decreases 3 - k,
    {
        assert(padded.subrange(0, k + 1).drop_last() =~= padded.subrange(0, k as int));
        let c: char = if k < n - frac_start {
            tok[frac_start + k]
        } else {
            '0'
        };
        assert(c == padded[k as int]);
        if k < n - frac_start {
            assert(is_digit(fp[k as int]));
        }
        frac = frac * 10 + digit_of(c);
        k = k + 1;
    }
    let v: i128 = ipv * 1000 + frac;
    if v > 0x8000_0000_0000_0000 {
        return None;
    }
    Some(v)
}

proof fn lemma_exp_pos(s: Seq<char>, p: int)
    requires
        0 <= p <= s.len(),
        forall|k: int| 0 <= k < p ==> s[k] != 'e' && s[k] != 'E',
        p == s.len() || s[p] == 'e' || s[p] == 'E',
    ensures
        exp_pos(s) == p,
    decreases p,
{
    if p > 0 {
        lemma_exp_pos(s.drop_first(), p - 1);
    }
}

proof fn lemma_pow10_mono(a: nat, b: nat)
    requires
        a <= b,
    ensures
        1 <= pow10(a) <= pow10(b),
    decreases b,
{
    if b > a {
        lemma_pow10_mono(a, (b - 1) as nat);
    } else if a > 0 {
        lemma_pow10_mono((a - 1) as nat, (a - 1) as nat);
    }
}

proof fn lemma_pow10_20()
    ensures
        pow10(20) == 100_000_000_000_000_000_000,
{
    reveal_with_fuel(pow10, 21);
}

/// Reads the digits of `tok[ds..end]` as a number, stopping at 40.
fn capped_digits(tok: &Vec<char>, ds: usize, end: usize) -> (r: u32)
    requires
        ds <= end <= tok.len(),
        all_digits(tok@.subrange(ds as int, end as int)),
    ensures
        r == if digits_value(tok@.subrange(ds as int, end as int)) < 40 {
            digits_value(tok@.subrange(ds as int, end as int))
        } else {
            40
        },
{
    let ghost all = tok@.subrange(ds as int, end as int);
    let mut e: u32 = 0;
    let mut k: usize = ds;
    while k < end
        invariant
            ds <= k <= end <= tok.len(),
            all == tok@.subrange(ds as int, end as int),
            all_digits(all),
            e == if digits_value(tok@.subrange(ds as int, k as int)) < 40 {
                digits_value(tok@.subrange(ds as int, k as int))
            } else {
                40
            },
        decreases end - k,
    {
        let ghost pre = tok@.subrange(ds as int, k as int);
        assert(tok@.subrange(ds as int, k + 1).drop_last() =~= pre);
        assert(is_digit(all[k - ds]));
        proof {
            assert forall|m: int| 0 <= m < pre.len() implies #[trigger] is_digit(pre[m]) by {
                assert(pre[m] == all[m]);
            }
            lemma_digits_nonneg(pre);
        }
        let d = digit_of(tok[k]);
        e = if e >= 4 {
            40
        } else {
            let x = e * 10 + d as u32;
            if x < 40 {
                x
            } else {
                40
            }
        };
        k = k + 1;
    }
    e
}

/// Reads a number with an optional exponent from `tok[start..]`.
fn parse_number(tok: &Vec<char>, start: usize) -> (r: Option<i128>)
    requires
        start <= tok.len(),
    ensures
        ({
            let body = tok@.subrange(start as int, tok.len() as int);
            match number_value(body) {
                Some(v) => if v <= 0x8000_0000_0000_0000 {
                    r matches Some(x) && x == v
                } else {
                    r is None
                },
                None => r is None,
            }
        }),
        r matches Some(v) ==> 0 <= v <= 0x8000_0000_0000_0000,
{
    let n = tok.len();
    let ghost body = tok@.subrange(start as int, n as int);
    let mut q: usize = start;
    while q < n && tok[q] != 'e' && tok[q] != 'E'
        invariant
            start <= q <= n,
            n == tok.len(),
            forall|k: int| start <= k < q ==> tok@[k] != 'e' && tok@[k] != 'E',
        decreases n - q,
    {
        q = q + 1;
    }
    proof {
        assert forall|k: int| 0 <= k < q - start implies body[k] != 'e' && body[k] != 'E' by {
            assert(body[k] == tok@[start + k]);
        }
        lemma_exp_pos(body, q - start);
    }
    if q == n {
        return parse_unsigned(tok, start, n);
    }
    assert(body.subrange(0, q - start) =~= tok@.subrange(start as int, q as int));
    let m: i128 = match parse_unsigned(tok, start, q) {
        Some(m) => m,
        None => return None,
    };
    let ghost es = body.subrange(q - start + 1, body.len() as int);
    assert(es =~= tok@.subrange(q + 1, n as int));
    let mut ds: usize = q + 1;
    let neg = ds < n && tok[ds] == '-';
    if ds < n && (tok[ds] == '-' || tok[ds] == '+') {
        ds = ds + 1;
        assert(es.drop_first() =~= tok@.subrange(ds as int, n as int));
    }
    if ds == n || !all_digits_exec(tok, ds, n) {
        return None;
    }
    let ghost dsq = tok@.subrange(ds as int, n as int);
    let ghost ev = digits_value(dsq);
    proof {
        lemma_digits_nonneg(dsq);
    }
    let e = capped_digits(tok, ds, n);
    if m == 0 {
        proof {
            if neg {
                lemma_pow10_mono(0, ev as nat);
                assert(0int / pow10(ev as nat) == 0);
            } else {
                assert(0 * pow10(ev as nat) == 0);
            }
        }
        return Some(0);
    }
    if e >= 20 {
        proof {
            lemma_pow10_20();
            lemma_pow10_mono(20, ev as nat);
        }
        if neg {
            proof {
                lemma_fundamental_div_mod_converse(m as int, pow10(ev as nat), 0, m as int);
            }
            return Some(0);
        } else {
            assert(m * pow10(ev as nat) >= pow10(ev as nat)) by (nonlinear_arith)
                requires
                    m >= 1,
                    pow10(ev as nat) >= 1,
            ;
            return None;
        }
    }
    let ghost nv = number_value(tok@.subrange(start as int, tok.len() as int));
    assert(nv == Some(scale_pow10(m as int, if neg { -ev } else { ev })));
    let mut v: i128 = m;
    let mut j: u32 = 0;
    assert(pow10(0) == 1);
    assert(m * pow10(0) == m);
    if neg {
        while j < e
            invariant
                j <= e < 20,
                e == ev,
                nv == Some((m as int) / pow10(ev as nat)),
                nv == number_value(tok@.subrange(start as int, tok.len() as int)),
                0 <= v <= m <= 0x8000_0000_0000_0000,
                v == (m as int) / pow10(j as nat),
            decreases e - j,
        {
            proof {
                lemma_pow10_mono(0, j as nat);
                lemma_div_denominator(m as int, pow10(j as nat), 10);
                assert(pow10(j as nat) * 10 == pow10((j + 1) as nat));
            }
            v = v / 10;
            j = j + 1;
        }
        Some(v)
    } else {
        while j < e
            invariant
                j <= e < 20,
                e == ev,
                nv == Some(m * pow10(ev as nat)),
                nv == number_value(tok@.subrange(start as int, tok.len() as int)),
                1 <= m <= v <= 0x8000_0000_0000_0000,
                v == m * pow10(j as nat),
            decreases e - j,
        {
            assert(v * 10 == m * pow10((j + 1) as nat)) by (nonlinear_arith)
                requires
                    v == m * pow10(j as nat),
                    pow10((j + 1) as nat) == 10 * pow10(j as nat),
            ;
            v = v * 10;
            j = j + 1;
            if v > 0x8000_0000_0000_0000 {
                proof {
                    lemma_pow10_mono(j as nat, ev as nat);
                    assert(m * pow10(j as nat) <= m * pow10(ev as nat)) by (nonlinear_arith)
                        requires
                            m >= 1,
                            pow10(j as nat) <= pow10(ev as nat),
                    ;
                }
                return None;
            }
        }
        Some(v)
    }
}

fn parse_fixed_exec(tok: &Vec<char>) -> (r: Option<i64>)
    ensures
        match parse_fixed(tok@) {
            Some(v) => r == Some(v as i64),
            None => r is None,
        },
{
    let n = tok.len();
    if n > 0 && tok[0] == '-' {
        assert(tok@.drop_first() =~= tok@.subrange(1, n as int));
        match parse_number(tok, 1) {
            Some(v) => Some((-v) as i64),
            None => None,
        }
    } else if n > 0 && tok[0] == '+' {
        assert(tok@.drop_first() =~= tok@.subrange(1, n as int));
        match parse_number(tok, 1) {
            Some(v) => if v <= i64::MAX as i128 {
                Some(v as i64)
            } else {
                None
            },
            None => None,
        }
    } else {
        assert(tok@ =~= tok@.subrange(0, n as int));
        match parse_number(tok, 0) {
            Some(v) => if v <= i64::MAX as i128 {
                Some(v as i64)
            } else {
                None
            },
            None => None,
        }
    }
}

fn is_op(op: &Vec<char>, c: char) -> (r: bool)
    ensures
        r == (op@ == seq![c]),
{
    if op.len() == 1 && op[0] == c {
        assert(op@ =~= seq![c]);
        true
    } else {
        assert(op@.len() != 1 || op@[0] != c);
        false
    }
}

fn apply_exec(op: &Vec<char>, a: i64, b: i64) -> (r: Option<i64>)
    ensures
        match apply_op(op@, a as int, b as int) {
            Some(v) => r == Some(clamp_i64(v) as i64),
            None => r is None,
        },
{
    let x: i128 = a as i128;
    let y: i128 = b as i128;
    let v: i128 = if is_op(op, '+') {
        x + y
    } else if is_op(op, '-') {
        x - y
    } else if is_op(op, '*') {
        assert(-0x4000_0000_0000_0000_0000_0000_0000_0000 <= x * y <= 0x4000_0000_0000_0000_0000_0000_0000_0000)
            by (nonlinear_arith)
            requires
                -0x8000_0000_0000_0000 <= x < 0x8000_0000_0000_0000,
                -0x8000_0000_0000_0000 <= y < 0x8000_0000_0000_0000,
        ;
        floor_div(x * y, SCALE as i128)
    } else if is_op(op, '/') {
        if y == 0 {
            return if x == 0 {
                None
            } else if x > 0 {
                Some(i64::MAX)
            } else {
                Some(i64::MIN)
            };
        }
        let num: i128 = x * (SCALE as i128);
        if y > 0 {
            floor_div(num, y)
        } else {
            floor_div(-num, -y)
        }
    } else {
        return None;
    };
    if v < i64::MIN as i128 {
        Some(i64::MIN)
    } else if v > i64::MAX as i128 {
        Some(i64::MAX)
    } else {
        Some(v as i64)
    }
}

/// Evaluates `formula` after replacing, in order, each metric name by the decimal text
/// of its value (textually: a name inside a longer word is replaced too). The result
/// splits at whitespace into number, operator, number, ...; the operators `+ - * /` are
/// applied strictly from left to right, with no precedence, on thousandths (products and
/// quotients rounded down). Numbers are decimal, optionally with an exponent (`1.5e3`),
/// rounded down to thousandths. Results saturate at the bounds of `i64`, and a nonzero
/// value divided by zero gives the bound of its sign. Absent for no tokens, a token that
/// is no number (or a number outside `i64`) where one is due, an unknown operator, an
/// operator without an operand, or `0 / 0`.
pub fn evaluate_metric_formula(formula: &str, metrics: &[(&str, i64)]) -> (r: Option<i64>)
    ensures
        match formula_value(formula@, metrics@) {
            Some(v) => r == Some(v as i64),
            None => r is None,
        },
{
    let mut text = chars_of(formula);
    let mut j: usize = 0;
    while j < metrics.len()
        invariant
            j <= metrics.len(),
            text@ == substitute(formula@, rendered(metrics@).subrange(0, j as int)),
        decreases metrics.len() - j,
    {
        let (name, value) = metrics[j];
        let pat = chars_of(name);
        let rep = fixed_text(value);
        let ghost vars = rendered(metrics@).subrange(0, j + 1);
        assert(vars.drop_last() =~= rendered(metrics@).subrange(0, j as int));
        text = replace_chars(&text, &pat, &rep);
        j = j + 1;
    }
    assert(rendered(metrics@).subrange(0, metrics.len() as int) =~= rendered(metrics@));
    let toks = tokenize(&text);
    let ghost ts = word_views(toks@);
    if toks.len() == 0 {
        return None;
    }
    assert(ts[0] == toks@[0]@);
    let mut acc: i64 = match parse_fixed_exec(&toks[0]) {
        Some(v) => v,
        None => return None,
    };
    let mut i: usize = 1;
    while i < toks.len()
        invariant
            1 <= i <= toks.len(),
            ts == word_views(toks@),
            formula_value(formula@, metrics@) == eval_tokens(ts),
            eval_tokens(ts) == eval_from(ts, i as int, acc as int),
        decreases toks.len() - i,
    {
        if i + 1 >= toks.len() {
            return None;
        }
        assert(ts[i as int] == toks@[i as int]@);
        assert(ts[i + 1] == toks@[i + 1]@);
        let b = match parse_fixed_exec(&toks[i + 1]) {
            Some(b) => b,
            None => return None,
        };
        acc = match apply_exec(&toks[i], acc, b) {
            Some(v) => v,
            None => return None,
        };
        i = i + 2;
    }
    Some(acc)
}

} // verus!
