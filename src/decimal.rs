use vstd::prelude::*;

verus! {

pub open spec fn pow10(n: nat) -> int
    decreases n,
{
    if n == 0 {
        1
    } else {
        10 * pow10((n - 1) as nat)
    }
}

pub open spec fn is_digit(c: char) -> bool {
    '0' <= c <= '9'
}

pub open spec fn digit_value(c: char) -> int {
    c as int - '0' as int
}

/// Reading of the unsigned part of a literal, left to right: (well formed so far, value of
/// the digits, number of digits, number of dots, number of digits after the dot).
pub open spec fn scan(b: Seq<char>) -> (bool, int, int, int, int)
    decreases b.len(),
{
    if b.len() == 0 {
        (true, 0, 0, 0, 0)
    } else {
        let (ok, value, digits, dots, frac) = scan(b.drop_last());
        let c = b.last();
        if is_digit(c) {
            (ok, value * 10 + digit_value(c), digits + 1, dots, if dots > 0 {
                frac + 1
            } else {
                frac
            })
        } else if c == '.' {
            (ok && dots == 0, value, digits, dots + 1, frac)
        } else {
            (false, value, digits, dots, frac)
        }
    }
}

/// Length of the sign in front of a literal.
pub open spec fn sign_len(s: Seq<char>) -> int {
    if s.len() > 0 && (s[0] == '+' || s[0] == '-') {
        1
    } else {
        0
    }
}

pub open spec fn unsigned_part(s: Seq<char>) -> Seq<char> {
    s.subrange(sign_len(s), s.len() as int)
}

/// Most digits a decimal literal may hold.
pub const MAX_DIGITS: u32 = 18;

/// An optional sign, then digits with at most one decimal point, from one to eighteen digits.
pub open spec fn is_decimal_literal(s: Seq<char>) -> bool {
    let (ok, value, digits, dots, frac) = scan(unsigned_part(s));
    ok && 1 <= digits <= MAX_DIGITS
}

/// The literal's value is `mantissa(s) / 10^scale(s)`.
pub open spec fn mantissa(s: Seq<char>) -> int {
    let (ok, value, digits, dots, frac) = scan(unsigned_part(s));
    if sign_len(s) == 1 && s[0] == '-' {
        -value
    } else {
        value
    }
}

pub open spec fn scale(s: Seq<char>) -> int {
    scan(unsigned_part(s)).4
}

/// Two literals name the same number.
pub open spec fn same_value(a: Seq<char>, b: Seq<char>) -> bool {
    mantissa(a) * pow10(scale(b) as nat) == mantissa(b) * pow10(scale(a) as nat)
}

proof fn lemma_scan_bounds(b: Seq<char>)
    ensures
        0 <= scan(b).1 < pow10(scan(b).2 as nat),
        0 <= scan(b).4 <= scan(b).2,
        0 <= scan(b).2,
    decreases b.len(),
{
    if b.len() > 0 {
        lemma_scan_bounds(b.drop_last());
    }
}

proof fn lemma_pow10_mono(a: nat, b: nat)
    requires
        a <= b,
    ensures
        1 <= pow10(a) <= pow10(b),
    decreases b,
{
    if b > 0 {
        lemma_pow10_mono(if a < b { a } else { (b - 1) as nat }, (b - 1) as nat);
    }
}

proof fn lemma_scan_grows(b: Seq<char>, k: int)
    requires
        0 <= k <= b.len(),
    ensures
        scan(b).2 >= scan(b.subrange(0, k)).2,
        !scan(b.subrange(0, k)).0 ==> !scan(b).0,
        scan(b.subrange(0, k)).3 > 1 ==> !scan(b).0,
    decreases b.len(),
{
    if k < b.len() {
        assert(b.drop_last().subrange(0, k) == b.subrange(0, k));
        lemma_scan_grows(b.drop_last(), k);
    } else {
        assert(b.subrange(0, k) == b);
    }
    if b.len() > 0 {
        lemma_scan_dots(b);
    }
}

proof fn lemma_scan_dots(b: Seq<char>)
    ensures
        scan(b).3 > 1 ==> !scan(b).0,
    decreases b.len(),
{
    if b.len() > 0 {
        lemma_scan_dots(b.drop_last());
    }
}

proof fn lemma_pow10_18()
    ensures
        pow10(18) == 1000000000000000000,
{
    reveal_with_fuel(pow10, 19);
}

/// Value of a decimal literal: `mantissa / 10^scale`.
#[derive(Debug, Clone, Copy, PartialEq, Eq, Structural)]
pub struct DecimalValue {
    pub mantissa: i64,
    pub scale: u32,
}

/// Reads a decimal literal: its mantissa and scale, or none when it is not one.
pub fn parse_decimal(s: &str) -> (r: Option<DecimalValue>)
    ensures
        r is Some <==> is_decimal_literal(s@),
        r is Some ==> r->0.mantissa == mantissa(s@) && r->0.scale == scale(s@),
{
    let n = s.unicode_len();
    let mut start: usize = 0;
    let mut negative = false;
    if n > 0 {
        let c = s.get_char(0);
        if c == '+' || c == '-' {
            start = 1;
            negative = c == '-';
        }
    }
    let ghost b = unsigned_part(s@);
    let mut value: u64 = 0;
    let mut digits: u32 = 0;
    let mut dots: u32 = 0;
    let mut frac: u32 = 0;
    let mut i: usize = start;
    while i < n
        invariant
            n == s@.len(),
            start == sign_len(s@),
            b == s@.subrange(start as int, n as int),
            start <= i <= n,
            digits <= MAX_DIGITS,
            scan(b.subrange(0, i - start)) == (true, value as int, digits as int, dots as int, frac as int),
            dots <= 1,
        decreases n - i,
    {
        let c = s.get_char(i);
        proof {
            assert(b.subrange(0, i - start + 1).drop_last() == b.subrange(0, i - start));
            assert(b.subrange(0, i - start + 1).last() == c);
            lemma_scan_bounds(b.subrange(0, i - start));
        }
        if '0' <= c && c <= '9' {
            if digits == MAX_DIGITS {
                proof {
                    let t = b.subrange(0, i - start + 1);
                    assert(scan(t).2 == MAX_DIGITS + 1);
                    lemma_scan_grows(b, i - start + 1);
                }
                return None;
            }
            proof {
                lemma_pow10_mono(digits as nat, 17);
                lemma_pow10_18();
                reveal_with_fuel(pow10, 2);
                assert(pow10(18) == 10 * pow10(17));
            }
            value = value * 10 + (c as u64 - '0' as u64);
            digits = digits + 1;
            if dots > 0 {
                frac = frac + 1;
            }
        } else if c == '.' && dots == 0 {
            dots = 1;
        } else {
            proof {
                lemma_scan_grows(b, i - start + 1);
            }
            return None;
        }
        i = i + 1;
    }
    assert(b.subrange(0, n - start) == b);
    if digits == 0 {
        return None;
    }
    proof {
        lemma_scan_bounds(b);
        lemma_pow10_mono(digits as nat, 18);
        lemma_pow10_18();
    }
    let m: i64 = if negative {
        -(value as i64)
    } else {
        value as i64
    };
    Some(DecimalValue { mantissa: m, scale: frac })
}

pub proof fn lemma_pow10_mono_pub(a: nat, b: nat)
    requires
        a <= b,
    ensures
        1 <= pow10(a) <= pow10(b),
{
    lemma_pow10_mono(a, b);
}

pub proof fn lemma_pow10_pos(n: nat)
    ensures
        pow10(n) >= 1,
{
    lemma_pow10_mono(0, n);
}

pub proof fn lemma_literal_bounds(s: Seq<char>)
    requires
        is_decimal_literal(s),
    ensures
        -pow10(18) < mantissa(s) < pow10(18),
        0 <= scale(s) <= 18,
        pow10(18) == 1000000000000000000,
{
    lemma_scan_bounds(unsigned_part(s));
    lemma_pow10_mono(scan(unsigned_part(s)).2 as nat, 18);
    lemma_pow10_18();
}

/// `10^n`.
pub fn pow10_exec(n: u32) -> (r: i128)
    requires
        n <= 18,
    ensures
        r == pow10(n as nat),
{
    let mut r: i128 = 1;
    let mut i: u32 = 0;
    while i < n
        invariant
            i <= n <= 18,
            r == pow10(i as nat),
        decreases n - i,
    {
        proof {
            lemma_pow10_mono(i as nat, 17);
            reveal_with_fuel(pow10, 18);
        }
        r = r * 10;
        i = i + 1;
    }
    r
}

/// An exact decimal number, kept as the literal it was written with.
#[derive(Debug)]
pub struct Decimal {
    text: String,
    value: DecimalValue,
}

impl View for Decimal {
    type V = Seq<char>;

    closed spec fn view(&self) -> Seq<char> {
        self.text@
    }
}

impl Decimal {
    #[verifier::type_invariant]
    spec fn literal_read(self) -> bool {
        &&& is_decimal_literal(self.text@)
        &&& self.value.mantissa == mantissa(self.text@)
        &&& self.value.scale == scale(self.text@)
    }

    /// The decimal written as `literal`, which must be a decimal literal.
    pub fn new(literal: &str) -> (r: Decimal)
        requires
            is_decimal_literal(literal@),
        ensures
            r@ == literal@,
    {
        let value = parse_decimal(literal).unwrap();
        Decimal { text: String::from_str(literal), value }
    }

    /// The decimal written as `literal`, or none when it is not a decimal literal.
    pub fn parse(literal: &str) -> (r: Option<Decimal>)
        ensures
            r is Some <==> is_decimal_literal(literal@),
            r is Some ==> r->0@ == literal@,
    {
        match parse_decimal(literal) {
            Some(value) => Some(Decimal { text: String::from_str(literal), value }),
            None => None,
        }
    }

    pub fn as_str(&self) -> (r: &str)
        ensures
            r@ == self@,
    {
        self.text.as_str()
    }

    /// Mantissa and scale of the number.
    pub fn value(&self) -> (r: DecimalValue)
        ensures
            r.mantissa == mantissa(self@),
            r.scale == scale(self@),
            is_decimal_literal(self@),
    {
        proof {
            use_type_invariant(self);
        }
        self.value
    }

    /// A copy with the same literal.
    pub fn duplicate(&self) -> (r: Decimal)
        ensures
            r@ == self@,
    {
        proof {
            use_type_invariant(self);
        }
        Decimal { text: self.text.clone(), value: self.value }
    }

    /// Both name the same number.
    pub fn same_value(&self, other: &Decimal) -> (r: bool)
        ensures
            r == same_value(self@, other@),
    {
        proof {
            use_type_invariant(self);
            use_type_invariant(other);
            lemma_literal_bounds(self@);
            lemma_literal_bounds(other@);
        }
        let a = self.value;
        let b = other.value;
        let pa = pow10_exec(a.scale);
        let pb = pow10_exec(b.scale);
        proof {
            lemma_pow10_mono(a.scale as nat, 18);
            lemma_pow10_mono(b.scale as nat, 18);
            assert(-1000000000000000000 < a.mantissa < 1000000000000000000);
            assert(1 <= pb <= 1000000000000000000);
            assert(-1000000000000000000000000000000000000 < a.mantissa as int * pb < 1000000000000000000000000000000000000) by (nonlinear_arith)
                requires
                    -1000000000000000000 < a.mantissa < 1000000000000000000,
                    1 <= pb <= 1000000000000000000,
            ;
            assert(-1000000000000000000000000000000000000 < b.mantissa as int * pa < 1000000000000000000000000000000000000) by (nonlinear_arith)
                requires
                    -1000000000000000000 < b.mantissa < 1000000000000000000,
                    1 <= pa <= 1000000000000000000,
            ;
        }
        (a.mantissa as i128) * pb == (b.mantissa as i128) * pa
    }
}

impl Clone for Decimal {
    fn clone(&self) -> (r: Decimal)
        ensures
            r@ == self@,
    {
        self.duplicate()
    }
}

impl PartialEq for Decimal {
    fn eq(&self, other: &Decimal) -> (r: bool) {
        self.same_value(other)
    }
}

impl vstd::std_specs::cmp::PartialEqSpecImpl for Decimal {
    open spec fn obeys_eq_spec() -> bool {
        true
    }

    open spec fn eq_spec(&self, other: &Decimal) -> bool {
        same_value(self@, other@)
    }
}

} // verus!
