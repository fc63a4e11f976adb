use vstd::prelude::*;
use vstd::string::StrSliceExecFns;

use crate::chars::string_of;

verus! {

// ---------------------------------------------------------------------------
// Literals
// ---------------------------------------------------------------------------

/// A literal parses when it is a prefix of the input; it consumes its length.
pub open spec fn spec_parse_lit(s: Seq<char>, lit: Seq<char>) -> Option<int> {
    if s.len() >= lit.len() && s.take(lit.len() as int) == lit {
        Some(lit.len() as int)
    } else {
        None
    }
}

pub proof fn lemma_parse_lit_round_trip(lit: Seq<char>, rest: Seq<char>)
    ensures
        spec_parse_lit(lit + rest, lit) == Some(lit.len() as int),
{
    assert((lit + rest).take(lit.len() as int) =~= lit);
}

/// Matches the characters of `lit` at position `i` of `v`.
pub fn match_lit(v: &Vec<char>, i: usize, lit: &str) -> (r: Option<usize>)
    requires
        i <= v@.len(),
    ensures
        r matches Some(j) ==> i <= j <= v@.len() && spec_parse_lit(v@.skip(i as int), lit@)
            == Some(j - i),
        r is None ==> spec_parse_lit(v@.skip(i as int), lit@) is None,
{
    let n = lit.unicode_len();
    let vn = v.len();
    if n > vn - i {
        return None;
    }
    let mut t: usize = 0;
    while t < n
        invariant
            0 <= t <= n,
            n == lit@.len(),
            vn == v@.len(),
            i + n <= vn,
            forall|j: int| 0 <= j < t ==> v@[i + j] == lit@[j],
        decreases n - t,
    {
        if v[i + t] != lit.get_char(t) {
            proof {
                assert(v@.skip(i as int)[t as int] == v@[i + t]);
                if spec_parse_lit(v@.skip(i as int), lit@) is Some {
                    assert(v@.skip(i as int).take(n as int)[t as int] == v@.skip(i as int)[
                        t as int
                    ]);
                }
            }
            return None;
        }
        t += 1;
    }
    proof {
        assert(v@.skip(i as int).take(n as int) =~= lit@);
    }
    Some(i + n)
}

/// Appends the characters of `lit` to `out`.
pub fn emit_lit(out: &mut Vec<char>, lit: &str)
    ensures
        final(out)@ == old(out)@ + lit@,
{
    let n = lit.unicode_len();
    let mut t: usize = 0;
    while t < n
        invariant
            0 <= t <= n,
            n == lit@.len(),
            out@ == old(out)@ + lit@.take(t as int),
        decreases n - t,
    {
        out.push(lit.get_char(t));
        proof {
            assert(old(out)@ + lit@.take(t + 1) =~= (old(out)@ + lit@.take(t as int)).push(
                lit@[t as int],
            ));
        }
        t += 1;
    }
    proof {
        assert(lit@.take(n as int) =~= lit@);
    }
}

// ---------------------------------------------------------------------------
// Booleans
// ---------------------------------------------------------------------------

pub open spec fn enc_bool(b: bool) -> Seq<char> {
    if b {
        "true"@
    } else {
        "false"@
    }
}

pub open spec fn spec_parse_bool(s: Seq<char>) -> Option<(bool, int)> {
    match spec_parse_lit(s, enc_bool(true)) {
        Some(k) => Some((true, k)),
        None => match spec_parse_lit(s, enc_bool(false)) {
            Some(k) => Some((false, k)),
            None => None,
        },
    }
}

pub proof fn lemma_parse_bool_round_trip(b: bool, rest: Seq<char>)
    ensures
        spec_parse_bool(enc_bool(b) + rest) == Some((b, enc_bool(b).len() as int)),
{
    reveal_strlit("true");
    reveal_strlit("false");
    lemma_parse_bool_round_trip_help(b, rest);
}

proof fn lemma_parse_bool_round_trip_help(b: bool, rest: Seq<char>)
    requires
        enc_bool(true)[0] == 't',
        enc_bool(false)[0] == 'f',
        enc_bool(true).len() == 4,
        enc_bool(false).len() == 5,
    ensures
        spec_parse_bool(enc_bool(b) + rest) == Some((b, enc_bool(b).len() as int)),
{
    let s = enc_bool(b) + rest;
    lemma_parse_lit_round_trip(enc_bool(b), rest);
    if !b {
        if spec_parse_lit(s, enc_bool(true)) is Some {
            assert(s.take(enc_bool(true).len() as int)[0] == s[0]);
            assert(false);
        }
    }
}

pub fn parse_bool(v: &Vec<char>, i: usize) -> (r: Option<(bool, usize)>)
    requires
        i <= v@.len(),
    ensures
        r matches Some((b, j)) ==> i <= j <= v@.len() && spec_parse_bool(v@.skip(i as int))
            == Some((b, j - i)),
        r is None ==> spec_parse_bool(v@.skip(i as int)) is None,
{
    if let Some(j) = match_lit(v, i, "true") {
        Some((true, j))
    } else if let Some(j) = match_lit(v, i, "false") {
        Some((false, j))
    } else {
        None
    }
}

pub fn emit_bool(out: &mut Vec<char>, b: bool)
    ensures
        final(out)@ == old(out)@ + enc_bool(b),
{
    if b {
        emit_lit(out, "true");
    } else {
        emit_lit(out, "false");
    }
}

// ---------------------------------------------------------------------------
// Numbers (non-negative decimal integers)
// ---------------------------------------------------------------------------

pub open spec fn digit_val(c: char) -> int {
    if c == '0' {
        0
    } else if c == '1' {
        1
    } else if c == '2' {
        2
    } else if c == '3' {
        3
    } else if c == '4' {
        4
    } else if c == '5' {
        5
    } else if c == '6' {
        6
    } else if c == '7' {
        7
    } else if c == '8' {
        8
    } else if c == '9' {
        9
    } else {
        -1
    }
}

pub open spec fn is_digit(c: char) -> bool {
    digit_val(c) >= 0
}

pub open spec fn digit_char(d: int) -> char {
    if d == 0 {
        '0'
    } else if d == 1 {
        '1'
    } else if d == 2 {
        '2'
    } else if d == 3 {
        '3'
    } else if d == 4 {
        '4'
    } else if d == 5 {
        '5'
    } else if d == 6 {
        '6'
    } else if d == 7 {
        '7'
    } else if d == 8 {
        '8'
    } else {
        '9'
    }
}

/// Canonical decimal image of `n`: most significant digit first, no leading
/// zeros (a single `'0'` for zero).
pub open spec fn enc_nat(n: int) -> Seq<char>
    decreases n,
{
    if n < 10 {
        seq![digit_char(n)]
    } else {
        enc_nat(n / 10).push(digit_char(n % 10))
    }
}

/// Length of the maximal digit prefix of `s`.
pub open spec fn digit_run(s: Seq<char>) -> int
    decreases s.len(),
{
    if s.len() > 0 && is_digit(s[0]) {
        1 + digit_run(s.skip(1))
    } else {
        0
    }
}

/// Value of a sequence of digits, most significant first.
pub open spec fn digits_val(d: Seq<char>) -> int
    decreases d.len(),
{
    if d.len() == 0 {
        0
    } else {
        digits_val(d.drop_last()) * 10 + digit_val(d.last())
    }
}

pub open spec fn spec_parse_nat(s: Seq<char>) -> Option<(int, int)> {
    let k = digit_run(s);
    if k == 0 {
        None
    } else {
        Some((digits_val(s.take(k)), k))
    }
}

/// The digit run of a position `k` that is preceded by digits only and
/// followed by a non-digit (or the end) is exactly `k`.
proof fn lemma_digit_run_is(s: Seq<char>, k: int)
    requires
        0 <= k <= s.len(),
        forall|j: int| 0 <= j < k ==> is_digit(#[trigger] s[j]),
        k == s.len() || !is_digit(s[k]),
    ensures
        digit_run(s) == k,
    decreases k,
{
    if k == 0 {
        if s.len() > 0 {
            assert(!is_digit(s[0]));
        }
    } else {
        assert(is_digit(s[0]));
        assert forall|j: int| 0 <= j < k - 1 implies is_digit(#[trigger] s.skip(1)[j]) by {
            assert(s.skip(1)[j] == s[j + 1]);
        };
        if k < s.len() {
            assert(s.skip(1)[k - 1] == s[k]);
        }
        lemma_digit_run_is(s.skip(1), k - 1);
    }
}

/// A digit sequence followed by a non-digit has itself as the digit run.
proof fn lemma_digit_run_concat(a: Seq<char>, b: Seq<char>)
    requires
        forall|j: int| 0 <= j < a.len() ==> is_digit(#[trigger] a[j]),
        b.len() == 0 || !is_digit(b[0]),
    ensures
        digit_run(a + b) == a.len(),
    decreases a.len(),
{
    let s = a + b;
    assert forall|j: int| 0 <= j < a.len() implies is_digit(#[trigger] s[j]) by {
        assert(s[j] == a[j]);
    };
    if a.len() < s.len() {
        assert(s[a.len() as int] == b[0]);
    }
    lemma_digit_run_is(s, a.len() as int);
}

pub proof fn lemma_digits_val_nonneg(d: Seq<char>)
    requires
        forall|j: int| 0 <= j < d.len() ==> is_digit(#[trigger] d[j]),
    ensures
        digits_val(d) >= 0,
    decreases d.len(),
{
    if d.len() > 0 {
        assert forall|j: int| 0 <= j < d.drop_last().len() implies is_digit(
            #[trigger] d.drop_last()[j],
        ) by {
            assert(d.drop_last()[j] == d[j]);
        };
        lemma_digits_val_nonneg(d.drop_last());
        assert(is_digit(d.last()));
    }
}

/// One accumulation step: extending a digit prefix by one digit multiplies
/// the value by ten and adds the digit.
proof fn lemma_digits_val_step(s: Seq<char>, j: int)
    requires
        0 <= j < s.len(),
    ensures
        digits_val(s.take(j + 1)) == digits_val(s.take(j)) * 10 + digit_val(s[j]),
{
    assert(s.take(j + 1).drop_last() =~= s.take(j));
    assert(s.take(j + 1).last() == s[j]);
}

/// The value of a digit prefix never decreases as the prefix grows.
proof fn lemma_digits_val_prefix_le(s: Seq<char>, j: int, k: int)
    requires
        0 <= j <= k <= s.len(),
        forall|t: int| 0 <= t < k ==> is_digit(#[trigger] s[t]),
    ensures
        digits_val(s.take(j)) <= digits_val(s.take(k)),
    decreases k - j,
{
    if j < k {
        lemma_digits_val_prefix_le(s, j, k - 1);
        lemma_digits_val_step(s, k - 1);
        assert forall|t: int| 0 <= t < s.take(k - 1).len() implies is_digit(
            #[trigger] s.take(k - 1)[t],
        ) by {
            assert(s.take(k - 1)[t] == s[t]);
        };
        lemma_digits_val_nonneg(s.take(k - 1));
    }
}

/// The canonical image of `n` is a non-empty digit sequence whose value is
/// `n` again.
pub proof fn lemma_enc_nat_digits(n: int)
    requires
        n >= 0,
    ensures
        enc_nat(n).len() >= 1,
        forall|j: int| 0 <= j < enc_nat(n).len() ==> is_digit(#[trigger] enc_nat(n)[j]),
        digits_val(enc_nat(n)) == n,
    decreases n,
{
    if n < 10 {
        let e = seq![digit_char(n)];
        assert(enc_nat(n) == e);
        assert(e.drop_last() =~= Seq::<char>::empty());
        assert(digits_val(Seq::<char>::empty()) == 0);
        assert(e.last() == digit_char(n));
        assert(digits_val(e) == 0 * 10 + digit_val(digit_char(n)));
    } else {
        lemma_enc_nat_digits(n / 10);
        let e = enc_nat(n / 10).push(digit_char(n % 10));
        assert(enc_nat(n) == e);
        assert(e.drop_last() =~= enc_nat(n / 10));
        assert(e.last() == digit_char(n % 10));
        assert(digits_val(e) == digits_val(enc_nat(n / 10)) * 10 + digit_val(digit_char(n % 10)));
        assert(digit_val(digit_char(n % 10)) == n % 10);
        assert((n / 10) * 10 + n % 10 == n);
        assert forall|j: int| 0 <= j < e.len() implies is_digit(#[trigger] e[j]) by {
            if j < e.len() - 1 {
                assert(e[j] == enc_nat(n / 10)[j]);
            }
        };
    }
}

pub proof fn lemma_parse_nat_round_trip(n: int, rest: Seq<char>)
    requires
        n >= 0,
        rest.len() == 0 || !is_digit(rest[0]),
    ensures
        spec_parse_nat(enc_nat(n) + rest) == Some((n, enc_nat(n).len() as int)),
{
    lemma_enc_nat_digits(n);
    lemma_digit_run_concat(enc_nat(n), rest);
    assert((enc_nat(n) + rest).take(enc_nat(n).len() as int) =~= enc_nat(n));
}

/// The decimal digit denoted by `c`, if any.
pub fn digit_of(c: char) -> (r: Option<usize>)
    ensures
        r matches Some(d) ==> is_digit(c) && d == digit_val(c) && d < 10,
        r is None ==> !is_digit(c),
{
    match c {
        '0' => Some(0),
        '1' => Some(1),
        '2' => Some(2),
        '3' => Some(3),
        '4' => Some(4),
        '5' => Some(5),
        '6' => Some(6),
        '7' => Some(7),
        '8' => Some(8),
        '9' => Some(9),
        _ => None,
    }
}

fn digit_char_of(d: usize) -> (c: char)
    requires
        d < 10,
    ensures
        c == digit_char(d as int),
{
    match d {
        0 => '0',
        1 => '1',
        2 => '2',
        3 => '3',
        4 => '4',
        5 => '5',
        6 => '6',
        7 => '7',
        8 => '8',
        _ => '9',
    }
}

/// Parses a run of decimal digits at position `i`. Fails exactly when no
/// digit stands at `i`, or when the denoted value does not fit in `usize`.
pub fn parse_nat(v: &Vec<char>, i: usize) -> (r: Option<(usize, usize)>)
    requires
        i <= v@.len(),
    ensures
        r matches Some((x, j)) ==> i <= j <= v@.len() && spec_parse_nat(v@.skip(i as int))
            == Some((x as int, j - i)),
        r is None ==> (spec_parse_nat(v@.skip(i as int)) is None || (spec_parse_nat(
            v@.skip(i as int),
        ) matches Some(p) ==> p.0 > usize::MAX)),
{
    let ghost s = v@.skip(i as int);
    let n = v.len();
    let mut e: usize = i;
    while e < n && digit_of(v[e]).is_some()
        invariant
            i <= e <= n,
            n == v@.len(),
            forall|j: int| i <= j < e ==> is_digit(#[trigger] v@[j]),
        decreases n - e,
    {
        e += 1;
    }
    proof {
        assert forall|j: int| 0 <= j < e - i implies is_digit(#[trigger] s[j]) by {
            assert(s[j] == v@[i + j]);
        };
        if e < n {
            assert(s[(e - i) as int] == v@[e as int]);
        }
        lemma_digit_run_is(s, e - i);
    }
    if e == i {
        return None;
    }
    let mut x: usize = 0;
    let mut j: usize = i;
    while j < e
        invariant
            i <= j <= e <= n,
            n == v@.len(),
            forall|t: int| i <= t < e ==> is_digit(#[trigger] v@[t]),
            digit_run(s) == e - i,
            s == v@.skip(i as int),
            x as int == digits_val(s.take((j - i) as int)),
        decreases e - j,
    {
        let d = match digit_of(v[j]) {
            Some(d) => d,
            None => {
                proof {
                    assert(is_digit(v@[j as int]));
                }
                return None;
            },
        };
        proof {
            assert(s[(j - i) as int] == v@[j as int]);
            lemma_digits_val_step(s, (j - i) as int);
            assert forall|t: int| 0 <= t < e - i implies is_digit(#[trigger] s[t]) by {
                assert(s[t] == v@[i + t]);
            };
        }
        if x > (usize::MAX - d) / 10 {
            proof {
                assert(x * 10 + d > usize::MAX) by {
                    assert(x >= (usize::MAX - d) / 10 + 1);
                    assert(((usize::MAX - d) / 10 + 1) * 10 == ((usize::MAX - d) / 10) * 10 + 10);
                    assert(((usize::MAX - d) / 10) * 10 + 10 > usize::MAX - d);
                };
                lemma_digits_val_prefix_le(s, j - i + 1, e - i);
                assert(digits_val(s.take((e - i) as int)) > usize::MAX);
            }
            return None;
        }
        proof {
            assert(x <= (usize::MAX - d) / 10);
            assert(x * 10 + d <= usize::MAX) by {
                assert(x * 10 <= ((usize::MAX - d) / 10) * 10);
                assert(((usize::MAX - d) / 10) * 10 <= usize::MAX - d);
            };
        }
        x = x * 10 + d;
        j += 1;
    }
    Some((x, e))
}

/// Appends the canonical decimal image of `n` to `out`.
pub fn emit_nat(out: &mut Vec<char>, n: usize)
    ensures
        final(out)@ == old(out)@ + enc_nat(n as int),
    decreases n,
{
    if n < 10 {
        out.push(digit_char_of(n));
        proof {
            assert(old(out)@ + enc_nat(n as int) =~= old(out)@.push(digit_char(n as int)));
        }
    } else {
        emit_nat(out, n / 10);
        out.push(digit_char_of(n % 10));
        proof {
            assert(old(out)@ + enc_nat(n as int) =~= (old(out)@ + enc_nat(n as int / 10)).push(
                digit_char(n as int % 10),
            ));
        }
    }
}

// ---------------------------------------------------------------------------
// Strings (double-quoted, with backslash escapes for quote and backslash)
// ---------------------------------------------------------------------------

pub open spec fn esc_char(c: char) -> Seq<char> {
    if c == '"' || c == '\\' {
        seq!['\\', c]
    } else {
        seq![c]
    }
}

/// The escaped image of `s`: quote and backslash prefixed by a backslash,
/// every other character kept as it is.
pub open spec fn esc(s: Seq<char>) -> Seq<char>
    decreases s.len(),
{
    if s.len() == 0 {
        Seq::empty()
    } else {
        esc_char(s[0]) + esc(s.skip(1))
    }
}

pub open spec fn enc_string(s: Seq<char>) -> Seq<char> {
    seq!['"'] + esc(s) + seq!['"']
}

/// Parses the body of a quoted string up to and including the closing quote;
/// returns the unescaped characters and the count consumed.
pub open spec fn spec_parse_str_body(s: Seq<char>) -> Option<(Seq<char>, int)>
    decreases s.len(),
{
    if s.len() == 0 {
        None
    } else if s[0] == '"' {
        Some((Seq::empty(), 1))
    } else if s[0] == '\\' {
        if s.len() >= 2 && (s[1] == '"' || s[1] == '\\') {
            match spec_parse_str_body(s.skip(2)) {
                Some((t, k)) => Some((seq![s[1]] + t, k + 2)),
                None => None,
            }
        } else {
            None
        }
    } else {
        match spec_parse_str_body(s.skip(1)) {
            Some((t, k)) => Some((seq![s[0]] + t, k + 1)),
            None => None,
        }
    }
}

pub open spec fn spec_parse_string(s: Seq<char>) -> Option<(Seq<char>, int)> {
    if s.len() > 0 && s[0] == '"' {
        match spec_parse_str_body(s.skip(1)) {
            Some((t, k)) => Some((t, k + 1)),
            None => None,
        }
    } else {
        None
    }
}

proof fn lemma_parse_str_body_round_trip(s: Seq<char>, rest: Seq<char>)
    ensures
        spec_parse_str_body(esc(s) + seq!['"'] + rest) == Some((s, esc(s).len() as int + 1)),
    decreases s.len(),
{
    let input = esc(s) + seq!['"'] + rest;
    if s.len() == 0 {
        assert(input[0] == '"');
    } else {
        let c = s[0];
        lemma_parse_str_body_round_trip(s.skip(1), rest);
        if c == '"' || c == '\\' {
            assert(input[0] == '\\');
            assert(input[1] == c);
            assert(input.skip(2) =~= esc(s.skip(1)) + seq!['"'] + rest);
            assert(seq![c] + s.skip(1) =~= s);
        } else {
            assert(input[0] == c);
            assert(input.skip(1) =~= esc(s.skip(1)) + seq!['"'] + rest);
            assert(seq![c] + s.skip(1) =~= s);
        }
    }
}

pub proof fn lemma_parse_string_round_trip(s: Seq<char>, rest: Seq<char>)
    ensures
        spec_parse_string(enc_string(s) + rest) == Some((s, enc_string(s).len() as int)),
        enc_string(s).len() == esc(s).len() + 2,
{
    let input = enc_string(s) + rest;
    assert(input[0] == '"');
    assert(input.skip(1) =~= esc(s) + seq!['"'] + rest);
    lemma_parse_str_body_round_trip(s, rest);
}

/// Growing the escaped text one character at a time.
pub proof fn lemma_esc_push(t: Seq<char>, c: char)
    ensures
        esc(t.push(c)) == esc(t) + esc_char(c),
    decreases t.len(),
{
    if t.len() == 0 {
        assert(t.push(c)[0] == c);
        assert(t.push(c).skip(1) =~= Seq::<char>::empty());
        assert(esc(Seq::<char>::empty()) == Seq::<char>::empty());
        assert(esc(t) == Seq::<char>::empty());
        assert(esc(t.push(c)) == esc_char(c) + esc(Seq::<char>::empty()));
        assert(esc(t.push(c)) =~= esc(t) + esc_char(c));
    } else {
        assert(t.push(c)[0] == t[0]);
        assert(t.push(c).skip(1) =~= t.skip(1).push(c));
        lemma_esc_push(t.skip(1), c);
        assert(esc_char(t[0]) + (esc(t.skip(1)) + esc_char(c)) =~= (esc_char(t[0]) + esc(
            t.skip(1),
        )) + esc_char(c));
    }
}

fn parse_str_body(v: &Vec<char>, i: usize) -> (r: Option<(Vec<char>, usize)>)
    requires
        i <= v@.len(),
    ensures
        r matches Some((t, j)) ==> i <= j <= v@.len() && spec_parse_str_body(v@.skip(i as int))
            == Some((t@, j - i)),
        r is None ==> spec_parse_str_body(v@.skip(i as int)) is None,
    decreases v@.len() - i,
{
    if i >= v.len() {
        return None;
    }
    let c = v[i];
    proof {
        assert(v@.skip(i as int)[0] == v@[i as int]);
    }
    if c == '"' {
        let t: Vec<char> = Vec::new();
        proof {
            assert(t@ =~= Seq::<char>::empty());
        }
        return Some((t, i + 1));
    }
    if c == '\\' {
        if i + 1 < v.len() {
            let d = v[i + 1];
            proof {
                assert(v@.skip(i as int)[1] == v@[i + 1]);
            }
            if d == '"' || d == '\\' {
                proof {
                    assert(v@.skip(i as int).skip(2) =~= v@.skip(i + 2));
                }
                match parse_str_body(v, i + 2) {
                    Some((mut t, j)) => {
                        t.insert(0, d);
                        proof {
                            assert(t@ =~= seq![v@.skip(i as int)[1]] + t@.skip(1));
                        }
                        return Some((t, j));
                    },
                    None => {
                        return None;
                    },
                }
            } else {
                return None;
            }
        } else {
            return None;
        }
    }
    proof {
        assert(v@.skip(i as int).skip(1) =~= v@.skip(i + 1));
    }
    match parse_str_body(v, i + 1) {
        Some((mut t, j)) => {
            t.insert(0, c);
            proof {
                assert(t@ =~= seq![v@.skip(i as int)[0]] + t@.skip(1));
            }
            Some((t, j))
        },
        None => None,
    }
}

/// Parses a quoted string at position `i`, returning the unescaped text.
pub fn parse_string(v: &Vec<char>, i: usize) -> (r: Option<(String, usize)>)
    requires
        i <= v@.len(),
    ensures
        r matches Some((t, j)) ==> i <= j <= v@.len() && spec_parse_string(v@.skip(i as int))
            == Some((t@, j - i)),
        r is None ==> spec_parse_string(v@.skip(i as int)) is None,
{
    if i >= v.len() || v[i] != '"' {
        if i < v.len() {
            proof {
                assert(v@.skip(i as int)[0] == v@[i as int]);
            }
        }
        return None;
    }
    proof {
        assert(v@.skip(i as int)[0] == v@[i as int]);
        assert(v@.skip(i as int).skip(1) =~= v@.skip(i + 1));
    }
    match parse_str_body(v, i + 1) {
        Some((t, j)) => Some((string_of(&t), j)),
        None => None,
    }
}

/// Appends the quoted, escaped image of `s` to `out`.
pub fn emit_string(out: &mut Vec<char>, s: &str)
    ensures
        final(out)@ == old(out)@ + enc_string(s@),
{
    let n = s.unicode_len();
    out.push('"');
    let mut i: usize = 0;
    while i < n
        invariant
            0 <= i <= n,
            n == s@.len(),
            out@ == old(out)@ + seq!['"'] + esc(s@.take(i as int)),
        decreases n - i,
    {
        let c = s.get_char(i);
        proof {
            assert(s@.take(i + 1) =~= s@.take(i as int).push(s@[i as int]));
            lemma_esc_push(s@.take(i as int), s@[i as int]);
        }
        if c == '"' || c == '\\' {
            out.push('\\');
            out.push(c);
            proof {
                assert(old(out)@ + seq!['"'] + esc(s@.take(i + 1)) =~= (old(out)@ + seq!['"'] + esc(
                    s@.take(i as int),
                )).push('\\').push(c));
            }
        } else {
            out.push(c);
            proof {
                assert(old(out)@ + seq!['"'] + esc(s@.take(i + 1)) =~= (old(out)@ + seq!['"'] + esc(
                    s@.take(i as int),
                )).push(c));
            }
        }
        i += 1;
    }
    out.push('"');
    proof {
        assert(s@.take(n as int) =~= s@);
        assert(old(out)@ + enc_string(s@) =~= (old(out)@ + seq!['"'] + esc(s@)).push('"'));
    }
}

} // verus!
