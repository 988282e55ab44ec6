//! Exact decimal currency amounts.
use std::str::FromStr;
use vstd::prelude::*;

verus! {

/// Largest scale (digits after the point) of a parsed decimal.
pub const MAX_SCALE: u32 = 28;

/// A decimal value `mantissa / 10^scale`, held exactly.
#[derive(Clone, Copy, Debug, PartialEq, Eq, Structural)]
pub struct Amount {
    pub mantissa: i128,
    pub scale: u32,
}

/// `10^n`.
pub open spec fn pow10(n: nat) -> int
    decreases n,
{
    if n == 0 {
        1
    } else {
        10 * pow10((n - 1) as nat)
    }
}

/// Magnitude bound of a parsed decimal's mantissa (96 bits).
pub open spec fn mantissa_bound() -> int {
    0x1_0000_0000_0000_0000_0000_0000
}

impl Amount {
    /// The range that a parsed decimal occupies.
    pub open spec fn in_decimal_range(self) -> bool {
        &&& self.scale <= MAX_SCALE
        &&& -mantissa_bound() < self.mantissa < mantissa_bound()
    }

    /// `self` written at the finer scale `s`: the integer `value * 10^s`.
    pub open spec fn at_scale(self, s: nat) -> int {
        self.mantissa * pow10((s - self.scale) as nat)
    }

    /// Numeric order: `self < other` as decimal values.
    pub open spec fn less_than(self, other: Amount) -> bool {
        self.mantissa * pow10(other.scale as nat) < other.mantissa * pow10(self.scale as nat)
    }

    /// Numeric equality of two decimal values.
    pub open spec fn same_value(self, other: Amount) -> bool {
        self.mantissa * pow10(other.scale as nat) == other.mantissa * pow10(self.scale as nat)
    }

    /// Zero at scale zero.
    pub fn zero() -> (r: Amount)
        ensures
            r.mantissa == 0,
            r.scale == 0,
    {
        Amount { mantissa: 0, scale: 0 }
    }

    /// Whether the value is zero.
    pub fn is_zero(&self) -> (r: bool)
        ensures
            r == (self.mantissa == 0),
    {
        self.mantissa == 0
    }
}

/// What `rust_decimal` reads from a text, as `(mantissa, scale)`.
pub uninterp spec fn decimal_of_text(text: Seq<char>) -> Option<(int, int)>;

/// Relies on `Decimal::from_str` of rust_decimal, with `Decimal::mantissa`
/// and `Decimal::scale` to read the result back; a decimal's mantissa fits
/// in 96 bits and its scale is at most 28.
#[verifier::external_body]
fn decimal_from_text(text: &str) -> (r: Option<Amount>)
    ensures
        r.is_some() == decimal_of_text(text@).is_some(),
        r matches Some(a) ==> {
            &&& a.in_decimal_range()
            &&& decimal_of_text(text@) == Some((a.mantissa as int, a.scale as int))
        },
{
    match rust_decimal::Decimal::from_str(text) {
        Ok(d) => Some(Amount { mantissa: d.mantissa(), scale: d.scale() }),
        Err(_) => None,
    }
}

/// Reads a signed decimal amount; the sign of the text is kept.
pub fn parse_amount(text: &str) -> (r: Option<Amount>)
    ensures
        r.is_some() == decimal_of_text(text@).is_some(),
        r matches Some(a) ==> {
            &&& a.in_decimal_range()
            &&& decimal_of_text(text@) == Some((a.mantissa as int, a.scale as int))
        },
{
    decimal_from_text(text)
}

/// Relies on the numeric order of `rust_decimal::Decimal` (`PartialOrd`),
/// built with `Decimal::from_i128_with_scale`, which accepts this range.
#[verifier::external_body]
fn decimal_less_than(a: Amount, b: Amount) -> (r: bool)
    requires
        a.in_decimal_range(),
        b.in_decimal_range(),
    ensures
        r == a.less_than(b),
{
    rust_decimal::Decimal::from_i128_with_scale(a.mantissa, a.scale)
        < rust_decimal::Decimal::from_i128_with_scale(b.mantissa, b.scale)
}

/// Compares two parsed amounts by value.
pub fn amount_less_than(a: Amount, b: Amount) -> (r: bool)
    requires
        a.in_decimal_range(),
        b.in_decimal_range(),
    ensures
        r == a.less_than(b),
{
    decimal_less_than(a, b)
}

/// `10^n` for the scales a decimal can take.
pub fn pow10_exec(n: u32) -> (r: i128)
    requires
        n <= MAX_SCALE,
    ensures
        r == pow10(n as nat),
        r <= pow10(MAX_SCALE as nat),
        r >= 1,
{
    let mut p: i128 = 1;
    let mut i: u32 = 0;
    while i < n
        invariant
            i <= n <= MAX_SCALE,
            p == pow10(i as nat),
            1 <= p <= pow10(i as nat),
        decreases n - i,
    {
        proof {
            lemma_pow10_monotone(i as nat + 1, MAX_SCALE as nat);
            lemma_pow10_max();
        }
        p = p * 10;
        i = i + 1;
    }
    proof {
        lemma_pow10_monotone(n as nat, MAX_SCALE as nat);
    }
    p
}

/// `10^a <= 10^b` for `a <= b`.
pub proof fn lemma_pow10_monotone(a: nat, b: nat)
    requires
        a <= b,
    ensures
        1 <= pow10(a) <= pow10(b),
    decreases b,
{
    if a < b {
        lemma_pow10_monotone(a, (b - 1) as nat);
    } else if a > 0 {
        lemma_pow10_monotone((a - 1) as nat, (a - 1) as nat);
    }
}

/// `10^28` is below the largest `i128`.
pub proof fn lemma_pow10_max()
    ensures
        pow10(MAX_SCALE as nat) == 10_000_000_000_000_000_000_000_000_000int,
{
    reveal_with_fuel(pow10, 29);
}

/// `10^(a + b) == 10^a * 10^b`.
pub proof fn lemma_pow10_add(a: nat, b: nat)
    ensures
        pow10(a + b) == pow10(a) * pow10(b),
    decreases a,
{
    if a > 0 {
        lemma_pow10_add((a - 1) as nat, b);
        assert(pow10(a + b) == 10 * pow10((a - 1 + b) as nat));
        assert(10 * (pow10((a - 1) as nat) * pow10(b)) == (10 * pow10((a - 1) as nat)) * pow10(b))
            by (nonlinear_arith);
    }
}

/// The sum of `a`, every amount written at scale `s`.
pub open spec fn aligned_sum(a: Seq<Amount>, s: nat) -> int
    decreases a.len(),
{
    if a.len() == 0 {
        0
    } else {
        aligned_sum(a.drop_last(), s) + a.last().at_scale(s)
    }
}

/// The shortest form of `v / 10^s`: factors of ten are struck from the
/// mantissa while the scale allows.
pub open spec fn canon(v: int, s: nat) -> (int, nat)
    decreases s,
{
    if s > 0 && v % 10 == 0 {
        canon(v / 10, (s - 1) as nat)
    } else {
        (v, s)
    }
}

impl Amount {
    /// No trailing zero after the point.
    pub open spec fn is_canonical(self) -> bool {
        self.scale == 0 || self.mantissa % 10 != 0
    }
}

/// A decimal holds the value `v / 10^28`: its shortest form has a scale of
/// at most 28 and a mantissa within 96 bits.
pub open spec fn decimal_holds(v: int) -> bool {
    -mantissa_bound() < canon(v, MAX_SCALE as nat).0 < mantissa_bound()
}

/// Every running sum of `a` is held by a decimal.
pub open spec fn sum_fits(a: Seq<Amount>) -> bool {
    forall|k: int|
        0 <= k < a.len() ==> decimal_holds(#[trigger] aligned_sum(a.take(k + 1), MAX_SCALE as nat))
}

/// What the shortest form keeps and loses.
pub proof fn lemma_canon_props(v: int, s: nat)
    ensures
        canon(v, s).1 <= s,
        v == canon(v, s).0 * pow10((s - canon(v, s).1) as nat),
        canon(v, s).1 == 0 || canon(v, s).0 % 10 != 0,
        -mantissa_bound() < v < mantissa_bound() ==> -mantissa_bound() < canon(v, s).0
            < mantissa_bound(),
    decreases s,
{
    if s > 0 && v % 10 == 0 {
        let w = v / 10;
        lemma_canon_props(w, (s - 1) as nat);
        let c = canon(w, (s - 1) as nat);
        assert(v == w * 10);
        lemma_pow10_add(1, (s - 1 - c.1) as nat);
        assert(pow10(0) == 1);
        assert(pow10(1) == 10);
        assert((1 + (s - 1 - c.1)) as nat == (s - c.1) as nat);
        assert(v == c.0 * pow10((s - c.1) as nat)) by (nonlinear_arith)
            requires
                v == w * 10,
                w == c.0 * pow10((s - 1 - c.1) as nat),
                pow10((s - c.1) as nat) == 10 * pow10((s - 1 - c.1) as nat),
        ;
        if v >= 0 {
            assert(0 <= w <= v);
        } else {
            assert(v <= w < 0);
        }
    }
}

/// Appending zeros and raising the scale alike leaves the shortest form alone.
pub proof fn lemma_canon_scale(v: int, s: nat, k: nat)
    ensures
        canon(v * pow10(k), s + k) == canon(v, s),
    decreases k,
{
    if k > 0 {
        let w = v * pow10((k - 1) as nat);
        assert(v * pow10(k) == w * 10) by (nonlinear_arith)
            requires
                w == v * pow10((k - 1) as nat),
                pow10(k) == 10 * pow10((k - 1) as nat),
        ;
        vstd::arithmetic::div_mod::lemma_mod_multiples_basic(w, 10);
        vstd::arithmetic::div_mod::lemma_div_multiples_vanish(w, 10);
        assert((w * 10) / 10 == w);
        lemma_canon_scale(v, s, (k - 1) as nat);
        assert((s + k - 1) as nat == s + (k - 1) as nat);
    } else {
        assert(v * pow10(0) == v);
    }
}

/// A canonical amount is the shortest form of its own value.
pub proof fn lemma_canonical_is_canon(t: Amount)
    requires
        t.is_canonical(),
        t.scale <= MAX_SCALE,
    ensures
        canon(t.at_scale(MAX_SCALE as nat), MAX_SCALE as nat) == (t.mantissa as int, t.scale as nat),
{
    let k = (MAX_SCALE - t.scale) as nat;
    lemma_canon_scale(t.mantissa as int, t.scale as nat, k);
    assert(t.scale as nat + k == MAX_SCALE as nat);
}

/// Strikes trailing zeros from `m / 10^s`.
fn shortest(m: i128, s: u32) -> (r: (i128, u32))
    ensures
        (r.0 as int, r.1 as nat) == canon(m as int, s as nat),
{
    let mut cm = m;
    let mut cs = s;
    while cs > 0 && cm % 10 == 0
        invariant
            canon(cm as int, cs as nat) == canon(m as int, s as nat),
        decreases cs,
    {
        cm = cm / 10;
        cs = cs - 1;
    }
    (cm, cs)
}

/// The shortest form of `m / 10^s` has the same value at scale 28.
proof fn lemma_shortest_value(m: int, s: nat)
    requires
        s <= MAX_SCALE,
    ensures
        m * pow10((MAX_SCALE - s) as nat) == canon(m, s).0 * pow10(
            (MAX_SCALE - canon(m, s).1) as nat,
        ),
{
    lemma_canon_props(m, s);
    let c = canon(m, s);
    let d = (s - c.1) as nat;
    let e = (MAX_SCALE - s) as nat;
    lemma_pow10_add(d, e);
    assert((MAX_SCALE - c.1) as nat == d + e);
    assert(m * pow10(e) == c.0 * pow10((MAX_SCALE - c.1) as nat)) by (nonlinear_arith)
        requires
            m == c.0 * pow10(d),
            pow10((MAX_SCALE - c.1) as nat) == pow10(d) * pow10(e),
    ;
}

/// The shortest form of a parsed amount, of equal value.
fn canonical_form(x: Amount) -> (r: Amount)
    requires
        x.in_decimal_range(),
    ensures
        r.is_canonical(),
        r.in_decimal_range(),
        r.at_scale(MAX_SCALE as nat) == x.at_scale(MAX_SCALE as nat),
{
    let (m, s) = shortest(x.mantissa, x.scale);
    proof {
        lemma_canon_props(x.mantissa as int, x.scale as nat);
        lemma_shortest_value(x.mantissa as int, x.scale as nat);
    }
    Amount { mantissa: m, scale: s }
}

/// A number ending in zero plus one that does not, does not end in zero.
proof fn lemma_last_digit(xa: int, bm: int)
    requires
        bm % 10 != 0,
        xa % 10 == 0,
    ensures
        (xa + bm) % 10 != 0,
{
    let q = xa / 10;
    assert(xa == 10 * q);
    vstd::arithmetic::div_mod::lemma_mod_multiples_vanish(q, bm, 10);
}

/// A multiple of `10^k`, for `k > 0`, ends in zero.
proof fn lemma_ends_in_zero(am: int, k: nat)
    requires
        k > 0,
    ensures
        (am * pow10(k)) % 10 == 0,
{
    let q = am * pow10((k - 1) as nat);
    assert(am * pow10(k) == q * 10) by (nonlinear_arith)
        requires
            pow10(k) == 10 * pow10((k - 1) as nat),
            q == am * pow10((k - 1) as nat),
    ;
    vstd::arithmetic::div_mod::lemma_mod_multiples_basic(q, 10);
}

/// Two canonical decimals aligned at the larger scale `s`: their sum at
/// scale 28 is the aligned sum followed by zeros, and when a decimal holds
/// that sum, both aligned terms stay within 97 bits.
proof fn lemma_aligned_pair(am: int, asc: nat, bm: int, bsc: nat, s: nat)
    requires
        asc <= s,
        bsc <= s,
        s <= MAX_SCALE,
        s == asc || s == bsc,
        asc == 0 || am % 10 != 0,
        bsc == 0 || bm % 10 != 0,
        -mantissa_bound() < am < mantissa_bound(),
        -mantissa_bound() < bm < mantissa_bound(),
    ensures
        am * pow10((MAX_SCALE - asc) as nat) + bm * pow10((MAX_SCALE - bsc) as nat) == (am * pow10(
            (s - asc) as nat,
        ) + bm * pow10((s - bsc) as nat)) * pow10((MAX_SCALE - s) as nat),
        canon(
            (am * pow10((s - asc) as nat) + bm * pow10((s - bsc) as nat)) * pow10(
                (MAX_SCALE - s) as nat,
            ),
            MAX_SCALE as nat,
        ) == canon(am * pow10((s - asc) as nat) + bm * pow10((s - bsc) as nat), s),
        decimal_holds(
            (am * pow10((s - asc) as nat) + bm * pow10((s - bsc) as nat)) * pow10(
                (MAX_SCALE - s) as nat,
            ),
        ) ==> {
            &&& -2 * mantissa_bound() < am * pow10((s - asc) as nat) < 2 * mantissa_bound()
            &&& -2 * mantissa_bound() < bm * pow10((s - bsc) as nat) < 2 * mantissa_bound()
        },
{
    let k = (MAX_SCALE - s) as nat;
    let fa = pow10((s - asc) as nat);
    let fb = pow10((s - bsc) as nat);
    lemma_pow10_add((s - asc) as nat, k);
    lemma_pow10_add((s - bsc) as nat, k);
    assert((MAX_SCALE - asc) as nat == (s - asc) as nat + k);
    assert((MAX_SCALE - bsc) as nat == (s - bsc) as nat + k);
    assert(am * pow10((MAX_SCALE - asc) as nat) + bm * pow10((MAX_SCALE - bsc) as nat) == (am * fa
        + bm * fb) * pow10(k)) by (nonlinear_arith)
        requires
            pow10((MAX_SCALE - asc) as nat) == fa * pow10(k),
            pow10((MAX_SCALE - bsc) as nat) == fb * pow10(k),
    ;
    let m = am * fa + bm * fb;
    lemma_canon_scale(m, s, k);
    assert(s + k == MAX_SCALE as nat);
    assert(pow10(0) == 1);
    if asc < bsc {
        assert(fb == 1);
        lemma_ends_in_zero(am, (s - asc) as nat);
        lemma_last_digit(am * fa, bm);
        assert(canon(m, s) == (m, s));
    } else if bsc < asc {
        assert(fa == 1);
        lemma_ends_in_zero(bm, (s - bsc) as nat);
        lemma_last_digit(bm * fb, am);
        assert(canon(m, s) == (m, s));
    } else {
        assert(fa == 1 && fb == 1);
    }
}

/// The exact sum of two canonical parsed amounts in shortest form, when a
/// decimal holds it.
fn add_canonical(a: Amount, b: Amount) -> (r: Option<Amount>)
    requires
        a.is_canonical(),
        b.is_canonical(),
        a.in_decimal_range(),
        b.in_decimal_range(),
    ensures
        r.is_some() == decimal_holds(a.at_scale(MAX_SCALE as nat) + b.at_scale(MAX_SCALE as nat)),
        r matches Some(t) ==> {
            &&& t.is_canonical()
            &&& t.in_decimal_range()
            &&& t.at_scale(MAX_SCALE as nat) == a.at_scale(MAX_SCALE as nat) + b.at_scale(
                MAX_SCALE as nat,
            )
        },
{
    let s: u32 = if a.scale >= b.scale {
        a.scale
    } else {
        b.scale
    };
    let fa = pow10_exec(s - a.scale);
    let fb = pow10_exec(s - b.scale);
    proof {
        lemma_aligned_pair(a.mantissa as int, a.scale as nat, b.mantissa as int, b.scale as nat, s as nat);
    }
    let xa = match a.mantissa.checked_mul(fa) {
        Some(x) => x,
        None => {
            return None;
        },
    };
    let xb = match b.mantissa.checked_mul(fb) {
        Some(x) => x,
        None => {
            return None;
        },
    };
    let sum = match xa.checked_add(xb) {
        Some(x) => x,
        None => {
            return None;
        },
    };
    let (cm, cs) = shortest(sum, s);
    proof {
        lemma_canon_props(sum as int, s as nat);
        lemma_shortest_value(sum as int, s as nat);
    }
    if cm <= -0x1_0000_0000_0000_0000_0000_0000i128 || cm >= 0x1_0000_0000_0000_0000_0000_0000i128 {
        return None;
    }
    Some(Amount { mantissa: cm, scale: cs })
}

/// One more amount adds its own term to the running sum.
proof fn lemma_aligned_sum_step(a: Seq<Amount>, i: int, s: nat)
    requires
        0 <= i < a.len(),
    ensures
        aligned_sum(a.take(i + 1), s) == aligned_sum(a.take(i), s) + a[i].at_scale(s),
{
    assert(a.take(i + 1).drop_last() =~= a.take(i));
    assert(a.take(i + 1).last() == a[i]);
}

/// The exact sum of `amounts`, in shortest form; `None` when some running
/// sum is more than a decimal holds.
pub fn sum_amounts(amounts: &Vec<Amount>) -> (r: Option<Amount>)
    requires
        forall|k: int| 0 <= k < amounts@.len() ==> #[trigger] amounts@[k].in_decimal_range(),
    ensures
        r.is_some() == sum_fits(amounts@),
        r matches Some(t) ==> (t.mantissa as int, t.scale as nat) == canon(
            aligned_sum(amounts@, MAX_SCALE as nat),
            MAX_SCALE as nat,
        ),
        amounts@.len() == 0 ==> r == Some(Amount { mantissa: 0, scale: 0 }),
{
    let ghost a = amounts@;
    let ghost top = MAX_SCALE as nat;
    let mut acc = Amount { mantissa: 0, scale: 0 };
    let mut i: usize = 0;
    while i < amounts.len()
        invariant
            a == amounts@,
            top == MAX_SCALE as nat,
            i <= a.len(),
            forall|k: int| 0 <= k < a.len() ==> #[trigger] a[k].in_decimal_range(),
            acc.is_canonical(),
            acc.in_decimal_range(),
            acc.at_scale(top) == aligned_sum(a.take(i as int), top),
            forall|k: int| 0 <= k < i ==> decimal_holds(#[trigger] aligned_sum(a.take(k + 1), top)),
            i == 0 ==> acc == (Amount { mantissa: 0, scale: 0 }),
        decreases a.len() - i,
    {
        proof {
            lemma_aligned_sum_step(a, i as int, top);
        }
        let term = canonical_form(amounts[i]);
        match add_canonical(acc, term) {
            None => {
                assert(!decimal_holds(aligned_sum(a.take(i + 1), top)));
                return None;
            },
            Some(next) => {
                acc = next;
            },
        }
        i = i + 1;
    }
    assert(a.take(a.len() as int) =~= a);
    proof {
        lemma_canonical_is_canon(acc);
    }
    Some(acc)
}

/// Comparing two amounts of scale at most 28 is comparing them written at scale 28.
pub proof fn lemma_order_by_finest_scale(a: Amount, b: Amount)
    requires
        a.scale <= MAX_SCALE,
        b.scale <= MAX_SCALE,
    ensures
        a.less_than(b) == (a.at_scale(MAX_SCALE as nat) < b.at_scale(MAX_SCALE as nat)),
        a.same_value(b) == (a.at_scale(MAX_SCALE as nat) == b.at_scale(MAX_SCALE as nat)),
{
    let da = (MAX_SCALE - a.scale) as nat;
    let db = (MAX_SCALE - b.scale) as nat;
    lemma_pow10_add(a.scale as nat, da);
    lemma_pow10_add(b.scale as nat, db);
    lemma_pow10_monotone(0, da);
    lemma_pow10_monotone(0, db);
    let pa = pow10(a.scale as nat);
    let pb = pow10(b.scale as nat);
    let qa = pow10(da);
    let qb = pow10(db);
    let top = pow10(MAX_SCALE as nat);
    assert(pa * qa == top && pb * qb == top);
    let f = qa * qb;
    assert(f > 0) by (nonlinear_arith)
        requires
            f == qa * qb,
            qa >= 1,
            qb >= 1,
    ;
    assert(a.mantissa * pb * f == (a.mantissa * qa) * top) by (nonlinear_arith)
        requires
            f == qa * qb,
            pb * qb == top,
    ;
    assert(b.mantissa * pa * f == (b.mantissa * qb) * top) by (nonlinear_arith)
        requires
            f == qa * qb,
            pa * qa == top,
    ;
    lemma_pow10_monotone(0, MAX_SCALE as nat);
    let x = a.mantissa * pb;
    let y = b.mantissa * pa;
    assert((x < y) == (x * f < y * f)) by (nonlinear_arith)
        requires
            f > 0,
    ;
    assert((x == y) == (x * f == y * f)) by (nonlinear_arith)
        requires
            f > 0,
    ;
    let u = a.mantissa * qa;
    let v = b.mantissa * qb;
    assert((u < v) == (u * top < v * top)) by (nonlinear_arith)
        requires
            top > 0,
    ;
    assert((u == v) == (u * top == v * top)) by (nonlinear_arith)
        requires
            top > 0,
    ;
}

} // verus!
