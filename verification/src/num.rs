//! Numbers in text: parsing in the manner of Rust's `from_str_radix`, and
//! printing in decimal and hexadecimal.
use vstd::prelude::*;

verus! {

/// The value of a digit in the given radix (letters in either case stand for
/// 10 and up), if `c` is one.
pub open spec fn digit_value(c: char, radix: nat) -> Option<nat> {
    let n = c as u32;
    let v: int = if 48 <= n && n <= 57 {
        n - 48
    } else if 97 <= n && n <= 122 {
        n - 97 + 10
    } else if 65 <= n && n <= 90 {
        n - 65 + 10
    } else {
        99
    };
    if v < radix {
        Some(v as nat)
    } else {
        None
    }
}

/// The value of the digit string `s`, if every character is a digit.
pub open spec fn digits_value(s: Seq<char>, radix: nat) -> Option<nat>
    decreases s.len(),
{
    if s.len() == 0 {
        Some(0)
    } else {
        match (digits_value(s.drop_last(), radix), digit_value(s.last(), radix)) {
            (Some(v), Some(d)) => Some(v * radix + d),
            _ => None,
        }
    }
}

/// Rust's `from_str_radix` for an unsigned type whose largest value is
/// `max`: an optional `+`, then at least one digit, and a value that fits.
pub open spec fn parse_unsigned(s: Seq<char>, radix: nat, max: nat) -> Option<nat> {
    let body = if s.len() > 0 && s[0] == '+' {
        s.drop_first()
    } else {
        s
    };
    if body.len() == 0 {
        None
    } else {
        match digits_value(body, radix) {
            Some(v) => if v <= max {
                Some(v)
            } else {
                None
            },
            None => None,
        }
    }
}

/// Rust's `from_str_radix` for a signed type with range `min..=max`:
/// an optional `+` or `-`, then at least one digit, and a value that fits.
pub open spec fn parse_signed(s: Seq<char>, radix: nat, min: int, max: int) -> Option<int> {
    if s.len() > 0 && s[0] == '-' {
        let body = s.drop_first();
        if body.len() == 0 {
            None
        } else {
            match digits_value(body, radix) {
                Some(v) => if -v >= min {
                    Some(-v)
                } else {
                    None
                },
                None => None,
            }
        }
    } else {
        match parse_unsigned(s, radix, max as nat) {
            Some(v) => Some(v as int),
            None => None,
        }
    }
}

/// Decimal parse for an unsigned type with largest value `max`
/// (`str::parse::<u8 | u16 | u32 | u64 | usize>`).
pub open spec fn parse_dec(s: Seq<char>, max: nat) -> Option<nat> {
    parse_unsigned(s, 10, max)
}

pub fn digit_value_exec(c: char, radix: u32) -> (r: Option<u32>)
    requires
        2 <= radix <= 36,
    ensures
        match (r, digit_value(c, radix as nat)) {
            (Some(a), Some(b)) => a == b,
            (None, None) => true,
            _ => false,
        },
{
    let n = c as u32;
    let v: u32 = if 48 <= n && n <= 57 {
        n - 48
    } else if 97 <= n && n <= 122 {
        n - 97 + 10
    } else if 65 <= n && n <= 90 {
        n - 65 + 10
    } else {
        99
    };
    if v < radix {
        Some(v)
    } else {
        None
    }
}

proof fn lemma_digits_take(s: Seq<char>, i: int)
    requires
        0 <= i < s.len(),
    ensures
        s.take(i + 1).drop_last() == s.take(i),
        s.take(i + 1).last() == s[i],
{
    assert(s.take(i + 1).drop_last() =~= s.take(i));
}

proof fn lemma_digits_prefix_none(s: Seq<char>, i: int, radix: nat)
    requires
        0 <= i <= s.len(),
        digits_value(s.take(i), radix) is None,
    ensures
        digits_value(s, radix) is None,
    decreases s.len() - i,
{
    if i == s.len() {
        assert(s.take(i) =~= s);
    } else {
        assert(s.drop_last().take(i) =~= s.take(i));
        lemma_digits_prefix_none(s.drop_last(), i, radix);
    }
}

proof fn lemma_digits_prefix_mono(s: Seq<char>, i: int, radix: nat, v: nat)
    requires
        0 <= i <= s.len(),
        radix >= 1,
        digits_value(s.take(i), radix) == Some(v),
    ensures
        match digits_value(s, radix) {
            Some(w) => w >= v,
            None => true,
        },
    decreases s.len() - i,
{
    if i == s.len() {
        assert(s.take(i) =~= s);
    } else {
        assert(s.drop_last().take(i) =~= s.take(i));
        lemma_digits_prefix_mono(s.drop_last(), i, radix, v);
        match digits_value(s.drop_last(), radix) {
            Some(w) => {
                assert(w * radix >= w) by (nonlinear_arith)
                    requires
                        radix >= 1,
                ;
            },
            None => {},
        }
    }
}

/// The value of the digits of `s[from..]`, if they all are digits and the
/// value is at most `max`.
fn digits_exec(s: &[char], from: usize, radix: u32, max: u64) -> (r: Option<u64>)
    requires
        from <= s@.len(),
        2 <= radix <= 36,
    ensures
        match (r, digits_value(s@.skip(from as int), radix as nat)) {
            (Some(a), Some(b)) => a == b && b <= max,
            (None, Some(b)) => b > max,
            (None, None) => true,
            _ => false,
        },
{
    let ghost body = s@.skip(from as int);
    let mut val: u64 = 0;
    let mut i: usize = from;
    assert(body.take(0) =~= Seq::<char>::empty());
    while i < s.len()
        invariant
            from <= i <= s@.len(),
            2 <= radix <= 36,
            body == s@.skip(from as int),
            digits_value(body.take(i - from), radix as nat) == Some(val as nat),
            val <= max,
        decreases s@.len() - i,
    {
        let k: Ghost<int> = Ghost((i - from) as int);
        proof {
            lemma_digits_take(body, k@);
            assert(body[k@] == s@[i as int]);
        }
        let d = match digit_value_exec(s[i], radix) {
            Some(d) => d,
            None => {
                proof {
                    lemma_digits_prefix_none(body, k@ + 1, radix as nat);
                }
                return None;
            },
        };
        let r64 = radix as u64;
        let d64 = d as u64;
        if d64 > max {
            proof {
                let nv = val * radix + d;
                assert(nv > max) by (nonlinear_arith)
                    requires
                        d64 > max,
                        d64 == d,
                        nv == val * radix + d,
                        val >= 0,
                        radix >= 2,
                ;
                lemma_digits_prefix_mono(body, k@ + 1, radix as nat, nv as nat);
            }
            return None;
        }
        let m = max - d64;
        let q = m / r64;
        if val > q {
            proof {
                let nv = val * radix + d;
                assert(nv > max) by (nonlinear_arith)
                    requires
                        val > q,
                        q == m / r64,
                        m == max - d64,
                        d64 <= max,
                        r64 == radix,
                        d64 == d,
                        radix >= 2,
                        nv == val * radix + d,
                ;
                lemma_digits_prefix_mono(body, k@ + 1, radix as nat, nv as nat);
            }
            return None;
        }
        proof {
            assert(val * r64 + d64 <= max) by (nonlinear_arith)
                requires
                    val <= q,
                    q == m / r64,
                        m == max - d64,
                    d64 <= max,
                    r64 >= 2,
            ;
        }
        val = val * r64 + d64;
        i = i + 1;
    }
    assert(body.take(i - from) =~= body);
    Some(val)
}

/// `from_str_radix` for an unsigned type whose largest value is `max`.
pub fn parse_unsigned_exec(s: &[char], radix: u32, max: u64) -> (r: Option<u64>)
    requires
        2 <= radix <= 36,
    ensures
        match (r, parse_unsigned(s@, radix as nat, max as nat)) {
            (Some(a), Some(b)) => a == b,
            (None, None) => true,
            _ => false,
        },
{
    let from: usize = if s.len() > 0 && s[0] == '+' {
        1
    } else {
        0
    };
    assert(s@.skip(0) =~= s@);
    assert(s@.len() > 0 ==> s@.skip(1) =~= s@.drop_first());
    if from == s.len() {
        return None;
    }
    digits_exec(s, from, radix, max)
}

/// `str::parse` for an unsigned decimal number of at most `max`.
pub fn parse_dec_exec(s: &[char], max: u64) -> (r: Option<u64>)
    ensures
        match (r, parse_dec(s@, max as nat)) {
            (Some(a), Some(b)) => a == b,
            (None, None) => true,
            _ => false,
        },
{
    parse_unsigned_exec(s, 10, max)
}

/// `from_str_radix` for a signed type with range `-(max + 1)..=max`
/// (`max` is `i32::MAX` or `i64::MAX`).
pub fn parse_signed_exec(s: &[char], radix: u32, max: u64) -> (r: Option<i64>)
    requires
        2 <= radix <= 36,
        max <= i64::MAX,
    ensures
        match (r, parse_signed(s@, radix as nat, -(max + 1), max as int)) {
            (Some(a), Some(b)) => a == b,
            (None, None) => true,
            _ => false,
        },
{
    if s.len() > 0 && s[0] == '-' {
        if s.len() == 1 {
            return None;
        }
        assert(s@.skip(1) =~= s@.drop_first());
        match digits_exec(s, 1, radix, max + 1) {
            Some(v) => {
                if v == max + 1 {
                    Some(-(max as i64) - 1)
                } else {
                    Some(-(v as i64))
                }
            },
            None => None,
        }
    } else {
        match parse_unsigned_exec(s, radix, max) {
            Some(v) => Some(v as i64),
            None => None,
        }
    }
}

/// `str::parse::<i32>`.
pub fn parse_i32_exec(s: &[char]) -> (r: Option<i32>)
    ensures
        match (r, parse_signed(s@, 10, i32::MIN as int, i32::MAX as int)) {
            (Some(a), Some(b)) => a == b,
            (None, None) => true,
            _ => false,
        },
{
    match parse_signed_exec(s, 10, i32::MAX as u64) {
        Some(v) => Some(v as i32),
        None => None,
    }
}

// ---------------------------------------------------------------------------
// Printing numbers
// ---------------------------------------------------------------------------

/// The lower-case digit character for `d`.
pub open spec fn digit_char(d: nat) -> char {
    if d < 10 {
        (48 + d) as char
    } else {
        (97 + d - 10) as char
    }
}

/// The digits of `n` in the given radix, most significant first, without
/// leading zeros (`0` is one digit).
pub open spec fn radix_digits(n: nat, radix: nat) -> Seq<char>
    decreases n,
{
    if radix < 2 || n < radix {
        seq![digit_char(n)]
    } else {
        proof {
            assert(n / radix < n) by (nonlinear_arith)
                requires
                    n >= radix,
                    radix >= 2,
            ;
        }
        radix_digits(n / radix, radix).push(digit_char(n % radix))
    }
}

/// `n` in decimal (`format!("{}", n)`).
pub open spec fn decimal(n: nat) -> Seq<char> {
    radix_digits(n, 10)
}

/// `n` in lower-case hexadecimal (`format!("{:x}", n)`).
pub open spec fn hex(n: nat) -> Seq<char> {
    radix_digits(n, 16)
}

/// A signed integer in decimal.
pub open spec fn signed_decimal(n: int) -> Seq<char> {
    if n < 0 {
        seq!['-'] + decimal((-n) as nat)
    } else {
        decimal(n as nat)
    }
}

/// `s` padded on the left with `fill` to at least `width` characters.
pub open spec fn pad_left(s: Seq<char>, width: nat, fill: char) -> Seq<char> {
    if s.len() >= width {
        s
    } else {
        Seq::new((width - s.len()) as nat, |i: int| fill) + s
    }
}

/// `s` padded on the right with spaces to at least `width` characters.
pub open spec fn pad_right(s: Seq<char>, width: nat) -> Seq<char> {
    if s.len() >= width {
        s
    } else {
        s + Seq::new((width - s.len()) as nat, |i: int| ' ')
    }
}

fn digit_char_exec(d: u64) -> (c: char)
    requires
        d < 36,
    ensures
        c == digit_char(d as nat),
{
    if d < 10 {
        ((48 + d) as u8) as char
    } else {
        ((97 + d - 10) as u8) as char
    }
}

/// `radix_digits(n, radix)`.
pub fn fmt_radix(n: u64, radix: u64) -> (v: Vec<char>)
    requires
        2 <= radix <= 16,
    ensures
        v@ == radix_digits(n as nat, radix as nat),
    decreases n,
{
    if n < radix {
        let mut v: Vec<char> = Vec::new();
        v.push(digit_char_exec(n));
        v
    } else {
        assert(n / radix < n) by (nonlinear_arith)
            requires
                n >= radix,
                radix >= 2,
        ;
        let mut v = fmt_radix(n / radix, radix);
        v.push(digit_char_exec(n % radix));
        v
    }
}

/// `n` in decimal.
pub fn fmt_dec(n: u64) -> (v: Vec<char>)
    ensures
        v@ == decimal(n as nat),
{
    fmt_radix(n, 10)
}

/// `n` in decimal, with a minus sign when negative.
pub fn fmt_signed(n: i64) -> (v: Vec<char>)
    ensures
        v@ == signed_decimal(n as int),
{
    if n < 0 {
        let m: u64 = if n == i64::MIN {
            (i64::MAX as u64) + 1
        } else {
            (-n) as u64
        };
        let d = fmt_radix(m, 10);
        let mut v: Vec<char> = Vec::new();
        v.push('-');
        crate::text::push_all(&mut v, d.as_slice());
        assert(v@ =~= seq!['-'] + d@);
        v
    } else {
        fmt_radix(n as u64, 10)
    }
}

/// `pad_left(s, width, fill)`.
pub fn pad_left_exec(s: &[char], width: usize, fill: char) -> (v: Vec<char>)
    ensures
        v@ == pad_left(s@, width as nat, fill),
{
    if s.len() >= width {
        return crate::text::copy_chars(s);
    }
    let mut v: Vec<char> = Vec::new();
    let n = width - s.len();
    let mut i: usize = 0;
    while i < n
        invariant
            i <= n,
            v@ == Seq::new(i as nat, |j: int| fill),
        decreases n - i,
    {
        v.push(fill);
        i = i + 1;
        assert(v@ =~= Seq::new(i as nat, |j: int| fill));
    }
    crate::text::push_all(&mut v, s);
    v
}

/// `pad_right(s, width)`.
pub fn pad_right_exec(s: &[char], width: usize) -> (v: Vec<char>)
    ensures
        v@ == pad_right(s@, width as nat),
{
    let mut v = crate::text::copy_chars(s);
    if s.len() >= width {
        return v;
    }
    let n = width - s.len();
    let mut i: usize = 0;
    while i < n
        invariant
            i <= n,
            v@ == s@ + Seq::new(i as nat, |j: int| ' '),
        decreases n - i,
    {
        v.push(' ');
        i = i + 1;
        assert(v@ =~= s@ + Seq::new(i as nat, |j: int| ' '));
    }
    v
}

/// `n` in hexadecimal, zero-padded to `width` digits (`{:0width$x}`).
pub fn fmt_hex_padded(n: u64, width: usize) -> (v: Vec<char>)
    ensures
        v@ == pad_left(hex(n as nat), width as nat, '0'),
{
    let h = fmt_radix(n, 16);
    pad_left_exec(h.as_slice(), width, '0')
}

/// A signed integer zero-padded to `width` characters, the sign counted
/// (`{:0width$}`).
pub open spec fn zero_padded(n: int, width: nat) -> Seq<char> {
    if n < 0 {
        seq!['-'] + pad_left(decimal((-n) as nat), (if width >= 1 { width - 1 } else { 0 }) as nat, '0')
    } else {
        pad_left(decimal(n as nat), width, '0')
    }
}

/// `zero_padded(n, width)`.
pub fn fmt_zero_padded(n: i64, width: usize) -> (v: Vec<char>)
    ensures
        v@ == zero_padded(n as int, width as nat),
{
    if n < 0 {
        let m: u64 = if n == i64::MIN {
            (i64::MAX as u64) + 1
        } else {
            (-n) as u64
        };
        let d = fmt_radix(m, 10);
        let w = if width >= 1 { width - 1 } else { 0 };
        let p = pad_left_exec(d.as_slice(), w, '0');
        let mut v: Vec<char> = Vec::new();
        v.push('-');
        crate::text::push_all(&mut v, p.as_slice());
        assert(v@ =~= seq!['-'] + p@);
        v
    } else {
        let d = fmt_radix(n as u64, 10);
        pad_left_exec(d.as_slice(), width, '0')
    }
}

proof fn lemma_digit_round_trip(d: nat, radix: nat)
    requires
        d < radix,
        radix <= 36,
    ensures
        digit_value(digit_char(d), radix) == Some(d),
{
    if d < 10 {
        assert((((48 + d) as char) as u32) == 48 + d);
    } else {
        assert((((97 + d - 10) as char) as u32) == 97 + d - 10);
    }
}

proof fn lemma_digit_char_sign(d: nat)
    requires
        d < 36,
    ensures
        digit_char(d) != '+' && digit_char(d) != '-',
{
    if d < 10 {
        assert((((48 + d) as char) as u32) == 48 + d);
    } else {
        assert((((97 + d - 10) as char) as u32) == 97 + d - 10);
    }
}

/// Reading back the digits of `n` gives `n`.
pub proof fn lemma_digits_round_trip(n: nat, radix: nat)
    requires
        2 <= radix <= 36,
    ensures
        digits_value(radix_digits(n, radix), radix) == Some(n),
        radix_digits(n, radix).len() > 0,
        radix_digits(n, radix)[0] != '+' && radix_digits(n, radix)[0] != '-',
    decreases n,
{
    let s = radix_digits(n, radix);
    if n < radix {
        lemma_digit_round_trip(n, radix);
        lemma_digit_char_sign(n);
        assert(s == seq![digit_char(n)]);
        assert(s.drop_last() =~= Seq::<char>::empty());
        assert(digits_value(s.drop_last(), radix) == Some(0nat));
        assert(s.last() == digit_char(n));
        assert(digit_value(s.last(), radix) == Some(n));
        assert(0nat * radix + n == n) by (nonlinear_arith);
        assert(digits_value(s, radix) == Some(n));
    } else {
        assert(n / radix < n && n % radix < radix && (n / radix) * radix + n % radix == n) by (nonlinear_arith)
            requires
                n >= radix,
                radix >= 2,
        ;
        lemma_digits_round_trip(n / radix, radix);
        lemma_digit_round_trip(n % radix, radix);
        let t = radix_digits(n / radix, radix);
        assert(s == t.push(digit_char(n % radix)));
        assert(s.drop_last() =~= t);
        assert(s.last() == digit_char(n % radix));
        assert(s[0] == t[0]);
        assert(digits_value(s, radix) == Some(((n / radix) * radix + n % radix) as nat));
    }
}

/// Printing a number in decimal and reading it back gives the number, for
/// every number that fits the type read.
pub proof fn lemma_decimal_round_trip(n: nat, max: nat)
    requires
        n <= max,
    ensures
        parse_dec(decimal(n), max) == Some(n),
{
    lemma_digits_round_trip(n, 10);
}

/// An ASCII digit or lower-case letter.
pub open spec fn is_digit_or_lower(c: char) -> bool {
    (48 <= (c as u32) <= 57) || (97 <= (c as u32) <= 122)
}

/// The digits of a number are ASCII digits and lower-case letters.
pub proof fn lemma_radix_digit_chars(n: nat, radix: nat)
    requires
        2 <= radix <= 36,
    ensures
        forall|i: int| 0 <= i < radix_digits(n, radix).len() ==> is_digit_or_lower(#[trigger] radix_digits(n, radix)[i]),
    decreases n,
{
    let s = radix_digits(n, radix);
    if n < radix {
        assert(s == seq![digit_char(n)]);
        if n < 10 {
            assert((((48 + n) as char) as u32) == 48 + n);
        } else {
            assert((((97 + n - 10) as char) as u32) == 97 + n - 10);
        }
    } else {
        assert(n / radix < n && n % radix < radix) by (nonlinear_arith)
            requires
                n >= radix,
                radix >= 2,
        ;
        lemma_radix_digit_chars(n / radix, radix);
        let t = radix_digits(n / radix, radix);
        let d = n % radix;
        assert(s == t.push(digit_char(d)));
        if d < 10 {
            assert((((48 + d) as char) as u32) == 48 + d);
        } else {
            assert((((97 + d - 10) as char) as u32) == 97 + d - 10);
        }
        assert forall|i: int| 0 <= i < s.len() implies is_digit_or_lower(#[trigger] s[i]) by {
            if i < s.len() - 1 {
                assert(s[i] == t[i]);
            }
        }
    }
}

/// Padding digits with `0`s keeps them ASCII digits and lower-case letters.
pub proof fn lemma_padded_digit_chars(n: nat, radix: nat, width: nat)
    requires
        2 <= radix <= 36,
    ensures
        forall|i: int| 0 <= i < pad_left(radix_digits(n, radix), width, '0').len() ==> is_digit_or_lower(
            #[trigger] pad_left(radix_digits(n, radix), width, '0')[i],
        ),
{
    lemma_radix_digit_chars(n, radix);
    let d = radix_digits(n, radix);
    let p = pad_left(d, width, '0');
    assert forall|i: int| 0 <= i < p.len() implies is_digit_or_lower(#[trigger] p[i]) by {
        if d.len() < width {
            let k = (width - d.len()) as int;
            if i >= k {
                assert(p[i] == d[i - k]);
            } else {
                assert(p[i] == '0');
            }
        }
    }
}

} // verus!
