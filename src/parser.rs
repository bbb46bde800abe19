use vstd::prelude::*;
use vstd::arithmetic::div_mod::lemma_fundamental_div_mod_converse;
use vstd::string::StringSliceAdditionalSpecFns;

verus! {

/// A color with four 8-bit channels; alpha 255 is fully opaque.
#[derive(Clone, Copy, Debug, PartialEq, Eq, Structural)]
pub struct StandardColor {
    pub red: u8,
    pub green: u8,
    pub blue: u8,
    pub alpha: u8,
}

impl StandardColor {
    pub fn new(red: u8, green: u8, blue: u8, alpha: u8) -> (r: Self)
        ensures
            r == (StandardColor { red, green, blue, alpha }),
    {
        StandardColor { red, green, blue, alpha }
    }
}

/// The one error of the parser: the input matches none of the notations.
#[derive(Clone, Copy, Debug, PartialEq, Eq, Structural)]
pub enum ParseError {
    Malformed,
}

// ---------------------------------------------------------------------------
// The grammar, over the UTF-8 bytes of the input.
// ---------------------------------------------------------------------------

pub open spec fn is_space(b: u8) -> bool {
    b == 32 || b == 9 || b == 13 || b == 10
}

pub open spec fn is_dec_digit(b: u8) -> bool {
    48 <= b <= 57
}

pub open spec fn is_hex_digit(b: u8) -> bool {
    is_dec_digit(b) || (97 <= b <= 102) || (65 <= b <= 70)
}

/// The bytes a numeric token may hold: digits, and with `float` also `.`.
pub open spec fn token_byte(b: u8, float: bool) -> bool {
    is_dec_digit(b) || (float && b == 46)
}

pub open spec fn hex_digit_value(b: u8) -> int {
    if is_dec_digit(b) {
        b - 48
    } else if 97 <= b <= 102 {
        b - 97 + 10
    } else {
        b - 65 + 10
    }
}

pub open spec fn pow10(n: nat) -> nat
    decreases n,
{
    if n == 0 {
        1
    } else {
        10 * pow10((n - 1) as nat)
    }
}

/// The first position at or after `i` that does not hold a space, tab, CR or LF.
pub open spec fn spaces_end(s: Seq<u8>, i: int) -> int
    decreases s.len() - i,
{
    if 0 <= i < s.len() && is_space(s[i]) {
        spaces_end(s, i + 1)
    } else {
        i
    }
}

/// The end of the longest run of token bytes that starts at `i`, cut at `max` bytes.
pub open spec fn run_end(s: Seq<u8>, i: int, max: nat, float: bool) -> int
    decreases max,
{
    if max > 0 && 0 <= i < s.len() && token_byte(s[i], float) {
        run_end(s, i + 1, (max - 1) as nat, float)
    } else {
        i
    }
}

/// The number written in decimal by the digits `s[i..j]`.
pub open spec fn decimal_value(s: Seq<u8>, i: int, j: int) -> nat
    decreases j - i,
{
    if j <= i {
        0
    } else {
        decimal_value(s, i, j - 1) * 10 + (s[j - 1] - 48) as nat
    }
}

/// The position of the first `.` in `s[i..j]`, or `j` where there is none.
pub open spec fn first_dot(s: Seq<u8>, i: int, j: int) -> int
    decreases j - i,
{
    if j <= i {
        j
    } else if s[i] == 46 {
        i
    } else {
        first_dot(s, i + 1, j)
    }
}

/// A run of digits and dots is a number when it holds at most one dot and at least one digit.
pub open spec fn valid_float(s: Seq<u8>, i: int, j: int) -> bool {
    let d = first_dot(s, i, j);
    d == j || (first_dot(s, d + 1, j) == j && j - i > 1)
}

/// The byte for the decimal fraction `s[i..j]`: its value times 255, rounded half up,
/// and 255 for every value of 1 or more.
pub open spec fn float_channel(s: Seq<u8>, i: int, j: int) -> int {
    let d = first_dot(s, i, j);
    let k: nat = if d < j { (j - d - 1) as nat } else { 0 };
    let frac = if d < j { decimal_value(s, d + 1, j) } else { 0 };
    if decimal_value(s, i, d) > 0 {
        255
    } else {
        ((510 * frac + pow10(k)) / (2 * pow10(k))) as int
    }
}

/// A token of a tuple at `i`: optional spaces, the number, optional spaces and an
/// optional comma. Yields the number's value (a byte for `float`, the decimal value
/// otherwise) and where the next token starts.
#[verifier::opaque]
pub open spec fn token_at(s: Seq<u8>, i: int, float: bool) -> Option<(int, int)> {
    let a = spaces_end(s, i);
    let e = run_end(s, a, if float { 50nat } else { 3nat }, float);
    if e == a || (float && !valid_float(s, a, e)) {
        None
    } else {
        let b = spaces_end(s, e);
        let next = if b < s.len() && s[b] == 44 { b + 1 } else { b };
        let value = if float { float_channel(s, a, e) } else { decimal_value(s, a, e) as int };
        Some((value, next))
    }
}

/// Where the tuple's first token starts: after an optional `rgba` or `rgb` and `(`.
pub open spec fn tuple_start(s: Seq<u8>) -> Option<int> {
    let p: int = if s.len() >= 4 && s[0] == 114 && s[1] == 103 && s[2] == 98 && s[3] == 97 {
        4
    } else if s.len() >= 3 && s[0] == 114 && s[1] == 103 && s[2] == 98 {
        3
    } else {
        0
    };
    if p < s.len() && s[p] == 40 {
        Some(p + 1)
    } else {
        None
    }
}

/// The values of a tuple: three tokens, an optional fourth, then `)`.
pub open spec fn tuple_values(s: Seq<u8>, float: bool) -> Option<Seq<int>> {
    match tuple_start(s) {
        None => None,
        Some(p0) => match token_at(s, p0, float) {
            None => None,
            Some((v0, p1)) => match token_at(s, p1, float) {
                None => None,
                Some((v1, p2)) => match token_at(s, p2, float) {
                    None => None,
                    Some((v2, p3)) => match token_at(s, p3, float) {
                        Some((v3, p4)) => if p4 < s.len() && s[p4] == 41 {
                            Some(seq![v0, v1, v2, v3])
                        } else {
                            None
                        },
                        None => if p3 < s.len() && s[p3] == 41 {
                            Some(seq![v0, v1, v2])
                        } else {
                            None
                        },
                    },
                },
            },
        },
    }
}

pub open spec fn channels_fit(v: Seq<int>) -> bool {
    forall|i: int| 0 <= i < v.len() ==> 0 <= #[trigger] v[i] <= 255
}

/// The color of three or four channel values; alpha is 255 where there are three.
pub open spec fn color_of(v: Seq<int>) -> StandardColor {
    StandardColor {
        red: v[0] as u8,
        green: v[1] as u8,
        blue: v[2] as u8,
        alpha: if v.len() == 4 { v[3] as u8 } else { 255 },
    }
}

pub open spec fn hex_pair_at(s: Seq<u8>, i: int) -> bool {
    0 <= i && i + 1 < s.len() && is_hex_digit(s[i]) && is_hex_digit(s[i + 1])
}

pub open spec fn hex_byte(s: Seq<u8>, i: int) -> u8 {
    (hex_digit_value(s[i]) * 16 + hex_digit_value(s[i + 1])) as u8
}

/// `#` and three or four groups of two hex digits; alpha is 255 without a fourth.
pub open spec fn hex_color(s: Seq<u8>) -> Option<StandardColor> {
    if s.len() > 0 && s[0] == 35 && hex_pair_at(s, 1) && hex_pair_at(s, 3) && hex_pair_at(s, 5) {
        Some(
            StandardColor {
                red: hex_byte(s, 1),
                green: hex_byte(s, 3),
                blue: hex_byte(s, 5),
                alpha: if hex_pair_at(s, 7) { hex_byte(s, 7) } else { 255 },
            },
        )
    } else {
        None
    }
}

/// The color that a prefix of `s` denotes. Hex comes first, then the integer tuple,
/// then the float tuple. An integer tuple with a channel over 255 is no color: it
/// does not fall through to the float reading.
pub open spec fn parse_bytes_spec(s: Seq<u8>) -> Option<StandardColor> {
    match hex_color(s) {
        Some(c) => Some(c),
        None => match tuple_values(s, false) {
            Some(v) => if channels_fit(v) {
                Some(color_of(v))
            } else {
                None
            },
            None => match tuple_values(s, true) {
                Some(v) => Some(color_of(v)),
                None => None,
            },
        },
    }
}

pub open spec fn parse_spec(s: Seq<u8>) -> Result<StandardColor, ParseError> {
    match parse_bytes_spec(s) {
        Some(c) => Ok(c),
        None => Err(ParseError::Malformed),
    }
}


// ---------------------------------------------------------------------------
// Arithmetic facts used by the scanners.
// ---------------------------------------------------------------------------

proof fn lemma_decimal_split_left(s: Seq<u8>, i: int, j: int)
    requires
        0 <= i < j <= s.len(),
        forall|m: int| i <= m < j ==> is_dec_digit(#[trigger] s[m]),
    ensures
        decimal_value(s, i, j) == (s[i] - 48) * pow10((j - i - 1) as nat) + decimal_value(s, i + 1, j),
    decreases j - i,
{
    assert(is_dec_digit(s[i]));
    if j == i + 1 {
        assert(decimal_value(s, i, i) == 0);
        assert(decimal_value(s, i + 1, j) == 0);
        assert(pow10((j - i - 1) as nat) == 1);
        assert(decimal_value(s, i, j) == s[i] - 48);
    } else {
        lemma_decimal_split_left(s, i, j - 1);
        let m = (j - 1 - i - 1) as nat;
        assert(pow10((j - i - 1) as nat) == 10 * pow10(m));
        let d = s[i] - 48;
        assert(is_dec_digit(s[j - 1]));
        assert(decimal_value(s, i, j) == (d * pow10(m) + decimal_value(s, i + 1, j - 1)) * 10 + (s[j - 1] - 48));
        assert((d * pow10(m) + decimal_value(s, i + 1, j - 1)) * 10 == d * (10 * pow10(m)) + decimal_value(s, i + 1, j - 1) * 10) by (nonlinear_arith);
        assert(decimal_value(s, i + 1, j) == decimal_value(s, i + 1, j - 1) * 10 + (s[j - 1] - 48));
        assert(decimal_value(s, i, j) == d * pow10((j - i - 1) as nat) + decimal_value(s, i + 1, j));

    }
}

proof fn lemma_first_dot(s: Seq<u8>, i: int, j: int)
    requires
        0 <= i <= j <= s.len(),
    ensures
        i <= first_dot(s, i, j) <= j,
        forall|m: int| i <= m < first_dot(s, i, j) ==> #[trigger] s[m] != 46,
        first_dot(s, i, j) < j ==> s[first_dot(s, i, j)] == 46,
    decreases j - i,
{
    if i < j && s[i] != 46 {
        lemma_first_dot(s, i + 1, j);
    }
}

proof fn lemma_carry_step(dig: int, carry: int, rem: int, sv: int, p: int, o: int, c2: int)
    requires
        0 <= dig <= 9,
        0 <= carry < 255,
        0 <= rem < p,
        0 <= sv < p,
        255 * sv == carry * p + rem,
        dig * 255 + carry == 10 * c2 + o,
        0 <= o < 10,
    ensures
        255 * (dig * p + sv) == c2 * (10 * p) + (o * p + rem),
        0 <= o * p + rem < 10 * p,
        o >= 5 <==> 2 * (o * p + rem) >= 10 * p,
        dig * p + sv < 10 * p,
        0 <= c2 < 255,
{
    assert(255 * (dig * p + sv) == c2 * (10 * p) + (o * p + rem)) by (nonlinear_arith)
        requires
            255 * sv == carry * p + rem,
            dig * 255 + carry == 10 * c2 + o,
    ;
    assert(0 <= o * p + rem < 10 * p) by (nonlinear_arith)
        requires
            0 <= o < 10,
            0 <= rem < p,
    ;
    assert(o >= 5 <==> 2 * (o * p + rem) >= 10 * p) by (nonlinear_arith)
        requires
            0 <= o < 10,
            0 <= rem < p,
    ;
    assert(dig * p + sv < 10 * p) by (nonlinear_arith)
        requires
            0 <= dig <= 9,
            0 <= sv < p,
    ;
}

proof fn lemma_round_half_up(f: int, p: int, c: int, rem: int, up: bool)
    requires
        p > 0,
        0 <= rem < p,
        255 * f == c * p + rem,
        up <==> 2 * rem >= p,
    ensures
        (510 * f + p) / (2 * p) == c + if up { 1int } else { 0int },
{
    let q = c + if up { 1int } else { 0int };
    let r = 510 * f + p - q * (2 * p);
    assert(r == 2 * rem + p - (if up { 1int } else { 0int }) * (2 * p)) by (nonlinear_arith)
        requires
            255 * f == c * p + rem,
            q == c + if up { 1int } else { 0int },
            r == 510 * f + p - q * (2 * p),
    ;
    lemma_fundamental_div_mod_converse(510 * f + p, 2 * p, q, r);
}

// ---------------------------------------------------------------------------
// The scanners.
// ---------------------------------------------------------------------------

fn is_space_byte(b: u8) -> (r: bool)
    ensures
        r == is_space(b),
{
    b == 32 || b == 9 || b == 13 || b == 10
}

fn is_token_byte(b: u8, float: bool) -> (r: bool)
    ensures
        r == token_byte(b, float),
{
    (48 <= b && b <= 57) || (float && b == 46)
}

fn skip_spaces(s: &[u8], i: usize) -> (r: usize)
    requires
        i <= s@.len(),
    ensures
        r == spaces_end(s@, i as int),
        i <= r <= s@.len(),
{
    let mut j = i;
    while j < s.len() && is_space_byte(s[j])
        invariant
            i <= j <= s@.len(),
            spaces_end(s@, j as int) == spaces_end(s@, i as int),
        decreases s@.len() - j,
    {
        j += 1;
    }
    j
}

fn scan_run(s: &[u8], i: usize, max: usize, float: bool) -> (r: usize)
    requires
        i <= s@.len(),
    ensures
        r == run_end(s@, i as int, max as nat, float),
        i <= r <= s@.len(),
        r - i <= max,
        forall|m: int| i <= m < r ==> token_byte(#[trigger] s@[m], float),
{
    let mut j = i;
    let mut left = max;
    while left > 0 && j < s.len() && is_token_byte(s[j], float)
        invariant
            i <= j <= s@.len(),
            j - i + left == max,
            run_end(s@, j as int, left as nat, float) == run_end(s@, i as int, max as nat, float),
            forall|m: int| i <= m < j ==> token_byte(#[trigger] s@[m], float),
        decreases left,
    {
        j += 1;
        left -= 1;
    }
    j
}

/// The decimal value of one to three digits.
fn int_token_value(s: &[u8], a: usize, e: usize) -> (r: u16)
    requires
        a <= e <= s@.len(),
        e - a <= 3,
        forall|m: int| a <= m < e ==> is_dec_digit(#[trigger] s@[m]),
    ensures
        r as int == decimal_value(s@, a as int, e as int),
        r <= 999,
{
    let mut v: u16 = 0;
    let mut j = a;
    while j < e
        invariant
            a <= j <= e,
            e <= s@.len(),
            e - a <= 3,
            forall|m: int| a <= m < e ==> is_dec_digit(#[trigger] s@[m]),
            v as int == decimal_value(s@, a as int, j as int),
            j - a <= 1 ==> v <= 9,
            j - a <= 2 ==> v <= 99,
            v <= 999,
        decreases e - j,
    {
        assert(is_dec_digit(s@[j as int]));
        v = v * 10 + (s[j] - 48) as u16;
        j += 1;
    }
    v
}

fn find_dot(s: &[u8], i: usize, e: usize) -> (r: usize)
    requires
        i <= e <= s@.len(),
    ensures
        r == first_dot(s@, i as int, e as int),
{
    let mut j = i;
    while j < e && s[j] != 46
        invariant
            i <= j <= e,
            e <= s@.len(),
            first_dot(s@, j as int, e as int) == first_dot(s@, i as int, e as int),
        decreases e - j,
    {
        j += 1;
    }
    j
}

/// The byte of a decimal fraction: the value times 255 rounded half up, or 255
/// from 1 on. The fraction digits are multiplied by 255 from the right, carrying,
/// so no intermediate value exceeds a few thousand.
fn float_channel_byte(s: &[u8], a: usize, e: usize) -> (r: u8)
    requires
        a < e <= s@.len(),
        forall|m: int| a <= m < e ==> token_byte(#[trigger] s@[m], true),
        valid_float(s@, a as int, e as int),
    ensures
        r as int == float_channel(s@, a as int, e as int),
{
    let d = find_dot(s, a, e);
    proof {
        lemma_first_dot(s@, a as int, e as int);
    }
    let mut j = a;
    let mut nonzero = false;
    while j < d
        invariant
            a <= j <= d <= e <= s@.len(),
            forall|m: int| a <= m < e ==> token_byte(#[trigger] s@[m], true),
            forall|m: int| a <= m < d ==> #[trigger] s@[m] != 46,
            nonzero == (decimal_value(s@, a as int, j as int) > 0),
        decreases d - j,
    {
        assert(token_byte(s@[j as int], true) && s@[j as int] != 46);
        nonzero = nonzero || s[j] != 48;
        j += 1;
    }
    if nonzero {
        return 255;
    }
    assert(decimal_value(s@, a as int, d as int) == 0);
    if d == e {
        assert(pow10(0) == 1);
        assert(float_channel(s@, a as int, e as int) == (510 * 0 + 1) / (2 * 1));
        return 0;
    }
    if d + 1 == e {
        assert(pow10(0) == 1);
        assert(decimal_value(s@, e as int, e as int) == 0);
        return 0;
    }
    proof {
        lemma_first_dot(s@, d + 1, e as int);
    }
    let mut carry: u16 = 0;
    let mut up = false;
    let mut k = e;
    let ghost mut rem: int = 0;
    assert(pow10(0) == 1);
    while k > d + 1
        invariant
            a <= d,
            d + 1 <= k <= e <= s@.len(),
            forall|m: int| a <= m < e ==> token_byte(#[trigger] s@[m], true),
            forall|m: int| d + 1 <= m < e ==> #[trigger] s@[m] != 46,
            255 * decimal_value(s@, k as int, e as int) == carry * pow10((e - k) as nat) + rem,
            0 <= rem < pow10((e - k) as nat),
            decimal_value(s@, k as int, e as int) < pow10((e - k) as nat),
            carry < 255,
            k < e ==> (up <==> 2 * rem >= pow10((e - k) as nat)),
        decreases k,
    {
        let ghost old_k = k;
        k -= 1;
        assert(token_byte(s@[k as int], true) && s@[k as int] != 46);
        let dig = (s[k] - 48) as u16;
        let t = dig * 255 + carry;
        let o = t % 10;
        proof {
            let p = pow10((e - old_k) as nat);
            assert(forall|m: int| k <= m < e ==> is_dec_digit(#[trigger] s@[m])) by {
                assert forall|m: int| k <= m < e implies is_dec_digit(#[trigger] s@[m]) by {
                    assert(token_byte(s@[m], true) && s@[m] != 46);
                }
            }
            lemma_decimal_split_left(s@, k as int, e as int);
            lemma_carry_step(
                dig as int,
                carry as int,
                rem,
                decimal_value(s@, old_k as int, e as int) as int,
                p as int,
                o as int,
                (t / 10) as int,
            );
            assert(pow10((e - k) as nat) == 10 * p);
            rem = o * p + rem;
        }
        carry = t / 10;
        up = o >= 5;
    }
    proof {
        lemma_round_half_up(
            decimal_value(s@, d + 1, e as int) as int,
            pow10((e - d - 1) as nat) as int,
            carry as int,
            rem,
            up,
        );
    }
    (carry + if up { 1 } else { 0 }) as u8
}


/// One token of a tuple at `i`, with where the next one starts.
fn scan_token(s: &[u8], i: usize, float: bool) -> (r: Option<(u16, usize)>)
    requires
        i <= s@.len(),
    ensures
        match r {
            Some((v, n)) => token_at(s@, i as int, float) == Some((v as int, n as int)) && n
                <= s@.len() && (float ==> v <= 255),
            None => token_at(s@, i as int, float) is None,
        },
{
    reveal(token_at);
    let a = skip_spaces(s, i);
    let max: usize = if float { 50 } else { 3 };
    let e = scan_run(s, a, max, float);
    if e == a {
        return None;
    }
    let value: u16;
    if float {
        let d = find_dot(s, a, e);
        proof {
            lemma_first_dot(s@, a as int, e as int);
        }
        if d < e {
            let d2 = find_dot(s, d + 1, e);
            proof {
                lemma_first_dot(s@, d + 1, e as int);
            }
            if d2 < e || e - a == 1 {
                return None;
            }
        }
        value = float_channel_byte(s, a, e) as u16;
    } else {
        value = int_token_value(s, a, e);
    }
    let b = skip_spaces(s, e);
    let next = if b < s.len() && s[b] == 44 { b + 1 } else { b };
    Some((value, next))
}

/// Where the first token of a tuple starts: after an optional `rgba` or `rgb` and `(`.
fn open_tuple(s: &[u8]) -> (r: Option<usize>)
    ensures
        match r {
            Some(p) => tuple_start(s@) == Some(p as int) && p <= s@.len(),
            None => tuple_start(s@) is None,
        },
{
    let n = s.len();
    let p: usize = if n >= 4 && s[0] == 114 && s[1] == 103 && s[2] == 98 && s[3] == 97 {
        4
    } else if n >= 3 && s[0] == 114 && s[1] == 103 && s[2] == 98 {
        3
    } else {
        0
    };
    if p < n && s[p] == 40 {
        Some(p + 1)
    } else {
        None
    }
}

spec fn values_agree(r: Option<Vec<u16>>, w: Option<Seq<int>>) -> bool {
    match (r, w) {
        (Some(v), Some(w)) => v@.len() == w.len() && forall|i: int|
            0 <= i < w.len() ==> v@[i] as int == #[trigger] w[i],
        (None, None) => true,
        _ => false,
    }
}

/// The three or four values of a tuple, integer or float.
fn parse_tuple(s: &[u8], float: bool) -> (r: Option<Vec<u16>>)
    ensures
        values_agree(r, tuple_values(s@, float)),
        float && r is Some ==> forall|i: int| 0 <= i < r->0@.len() ==> #[trigger] r->0@[i] <= 255,
{
    let p0 = match open_tuple(s) {
        Some(p) => p,
        None => return None,
    };
    let (v0, p1) = match scan_token(s, p0, float) {
        Some(t) => t,
        None => return None,
    };
    let (v1, p2) = match scan_token(s, p1, float) {
        Some(t) => t,
        None => return None,
    };
    let (v2, p3) = match scan_token(s, p2, float) {
        Some(t) => t,
        None => return None,
    };
    match scan_token(s, p3, float) {
        Some((v3, p4)) => {
            if p4 < s.len() && s[p4] == 41 {
                let r = vec![v0, v1, v2, v3];
                assert(r@ =~= seq![v0, v1, v2, v3]);
                Some(r)
            } else {
                None
            }
        },
        None => {
            if p3 < s.len() && s[p3] == 41 {
                let r = vec![v0, v1, v2];
                assert(r@ =~= seq![v0, v1, v2]);
                Some(r)
            } else {
                None
            }
        },
    }
}

fn hex_digit(b: u8) -> (r: u8)
    requires
        is_hex_digit(b),
    ensures
        r as int == hex_digit_value(b),
{
    if 48 <= b && b <= 57 {
        b - 48
    } else if 97 <= b && b <= 102 {
        b - 97 + 10
    } else {
        b - 65 + 10
    }
}

fn is_hex_byte(b: u8) -> (r: bool)
    ensures
        r == is_hex_digit(b),
{
    (48 <= b && b <= 57) || (97 <= b && b <= 102) || (65 <= b && b <= 70)
}

fn has_hex_pair(s: &[u8], i: usize) -> (r: bool)
    ensures
        r == hex_pair_at(s@, i as int),
{
    i < s.len() && i + 1 < s.len() && is_hex_byte(s[i]) && is_hex_byte(s[i + 1])
}

/// The byte written by the two hex digits at `i`.
fn hex_to_u8(s: &[u8], i: usize) -> (r: u8)
    requires
        hex_pair_at(s@, i as int),
    ensures
        r == hex_byte(s@, i as int),
{
    hex_digit(s[i]) * 16 + hex_digit(s[i + 1])
}

fn parse_hex_rgb_value(s: &[u8]) -> (r: Option<StandardColor>)
    ensures
        r == hex_color(s@),
{
    if s.len() > 0 && s[0] == 35 && has_hex_pair(s, 1) && has_hex_pair(s, 3) && has_hex_pair(s, 5) {
        let alpha = if has_hex_pair(s, 7) { hex_to_u8(s, 7) } else { 255 };
        Some(StandardColor::new(hex_to_u8(s, 1), hex_to_u8(s, 3), hex_to_u8(s, 5), alpha))
    } else {
        None
    }
}

/// The color of three or four values, each at most 255.
fn color_from_values(v: &Vec<u16>) -> (r: StandardColor)
    requires
        v@.len() == 3 || v@.len() == 4,
        forall|i: int| 0 <= i < v@.len() ==> #[trigger] v@[i] <= 255,
    ensures
        r == color_of(v@.map_values(|x: u16| x as int)),
{
    let alpha = if v.len() == 4 { v[3] as u8 } else { 255 };
    StandardColor::new(v[0] as u8, v[1] as u8, v[2] as u8, alpha)
}

/// The integer tuple reading: `None` where the text is no integer tuple, an error
/// where it is one with a channel over 255.
fn parse_int_rgb(s: &[u8]) -> (r: Option<Result<StandardColor, ParseError>>)
    ensures
        r == match tuple_values(s@, false) {
            Some(v) => Some(
                if channels_fit(v) {
                    Ok(color_of(v))
                } else {
                    Err(ParseError::Malformed)
                },
            ),
            None => None,
        },
{
    let v = match parse_tuple(s, false) {
        Some(v) => v,
        None => return None,
    };
    let ghost w = tuple_values(s@, false)->0;
    let mut i: usize = 0;
    while i < v.len()
        invariant
            tuple_values(s@, false) == Some(w),
            i <= v@.len() == w.len(),
            forall|j: int| 0 <= j < w.len() ==> v@[j] as int == #[trigger] w[j],
            forall|j: int| 0 <= j < i ==> #[trigger] v@[j] <= 255,
        decreases v@.len() - i,
    {
        if v[i] > 255 {
            assert(w[i as int] > 255);
            return Some(Err(ParseError::Malformed));
        }
        i += 1;
    }
    assert(v@.map_values(|x: u16| x as int) =~= w);
    Some(Ok(color_from_values(&v)))
}

/// The float tuple reading: `None` where the text is no float tuple.
fn parse_float_rgb(s: &[u8]) -> (r: Option<StandardColor>)
    ensures
        r == match tuple_values(s@, true) {
            Some(v) => Some(color_of(v)),
            None => None,
        },
{
    match parse_tuple(s, true) {
        Some(v) => {
            assert(v@.map_values(|x: u16| x as int) =~= tuple_values(s@, true)->0);
            Some(color_from_values(&v))
        },
        None => None,
    }
}

/// The color that a prefix of `s` denotes, tried as hex, as an integer tuple and
/// as a float tuple in that order.
pub fn parse_color_bytes(s: &[u8]) -> (r: Result<StandardColor, ParseError>)
    ensures
        r == parse_spec(s@),
{
    if let Some(c) = parse_hex_rgb_value(s) {
        return Ok(c);
    }
    if let Some(r) = parse_int_rgb(s) {
        return r;
    }
    match parse_float_rgb(s) {
        Some(c) => Ok(c),
        None => Err(ParseError::Malformed),
    }
}

/// Parses a color written as `#RRGGBB[AA]`, `rgb(r, g, b)` / `rgba(r, g, b, a)` with
/// integer channels, or the same tuple with fractions from 0 to 1. Only a prefix of
/// the input needs to match.
pub fn parse_color(input: &str) -> (r: Result<StandardColor, ParseError>)
    ensures
        r == parse_spec(input.spec_bytes()),
{
    parse_color_bytes(input.as_bytes())
}

} // verus!
