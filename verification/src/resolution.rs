//! Picture and display resolutions, and their aspect ratios.

use vstd::prelude::*;
use vstd::string::*;

use vstd::arithmetic::div_mod::{lemma_div_by_multiple, lemma_fundamental_div_mod, lemma_truncate_middle};

use crate::text::{append_str, decimal, is_ascii_digit, lemma_decimal_digits, lemma_decimal_injective, push_decimal};

verus! {

/// A width and a height in pixels.
#[derive(Clone, Copy, Debug, PartialEq, Eq, Structural)]
pub struct Resolution {
    pub width: u64,
    pub height: u64,
}

/// The greatest common divisor, by Euclid's algorithm; `gcd(a, 0) == a`.
pub open spec fn gcd_spec(a: nat, b: nat) -> nat
    decreases b,
{
    if b == 0 {
        a
    } else {
        gcd_spec(b, a % b)
    }
}

/// `d` divides `x`.
pub open spec fn divides(d: nat, x: nat) -> bool {
    exists|k: nat| x == #[trigger] (k * d)
}

/// The sides of `w:h` after dividing both by their greatest common divisor,
/// when it is above 1.
pub open spec fn reduced(w: nat, h: nat) -> (nat, nat) {
    let g = gcd_spec(w, h);
    if g > 1 {
        (w / g, h / g)
    } else {
        (w, h)
    }
}

/// How a ratio is shown: `16:9`.
pub open spec fn ratio_display(w: nat, h: nat) -> Seq<char> {
    decimal(reduced(w, h).0) + ":"@ + decimal(reduced(w, h).1)
}

/// How a resolution is shown: `1920x1080`.
pub open spec fn resolution_display(r: Resolution) -> Seq<char> {
    decimal(r.width as nat) + "x"@ + decimal(r.height as nat)
}

/// The greatest common divisor of `a` and `b`.
pub fn gcd(a0: u64, b0: u64) -> (g: u64)
    ensures
        g == gcd_spec(a0 as nat, b0 as nat),
{
    let mut a = a0;
    let mut b = b0;
    while b != 0
        invariant
            gcd_spec(a as nat, b as nat) == gcd_spec(a0 as nat, b0 as nat),
        decreases b,
    {
        let tmp = b;
        b = a % b;
        a = tmp;
    }
    a
}

impl Resolution {
    /// A resolution of `width` by `height`.
    pub fn new(width: u64, height: u64) -> (r: Self)
        ensures
            r.width == width,
            r.height == height,
    {
        Resolution { width, height }
    }

    /// Whether both resolutions have the same aspect ratio, by comparing
    /// `w1 * h2` with `h1 * w2`.
    pub fn ratio_equals(&self, other: &Resolution) -> (b: bool)
        requires
            self.width * other.height <= u64::MAX,
            self.height * other.width <= u64::MAX,
        ensures
            b == (self.width * other.height == self.height * other.width),
    {
        self.width * other.height == self.height * other.width
    }

    /// The aspect ratio in lowest terms, such as `16:9`.
    pub fn ratio_str(&self) -> (s: String)
        ensures
            s@ == ratio_display(self.width as nat, self.height as nat),
    {
        let g = gcd(self.width, self.height);
        let w = if g > 1 {
            self.width / g
        } else {
            self.width
        };
        let h = if g > 1 {
            self.height / g
        } else {
            self.height
        };
        let mut s = String::new();
        push_decimal(&mut s, w);
        append_str(&mut s, ":");
        push_decimal(&mut s, h);
        assert(Seq::<char>::empty() + decimal(w as nat) + ":"@ + decimal(h as nat) == ratio_display(
            self.width as nat,
            self.height as nat,
        ));
        s
    }

    /// How the resolution is shown: `1920x1080`.
    pub fn to_display_string(&self) -> (s: String)
        ensures
            s@ == resolution_display(*self),
    {
        let mut s = String::new();
        push_decimal(&mut s, self.width);
        append_str(&mut s, "x");
        push_decimal(&mut s, self.height);
        assert(Seq::<char>::empty() + decimal(self.width as nat) + "x"@ + decimal(
            self.height as nat,
        ) == resolution_display(*self));
        s
    }
}


proof fn lemma_gcd_divides(a: nat, b: nat)
    ensures
        divides(gcd_spec(a, b), a),
        divides(gcd_spec(a, b), b),
    decreases b,
{
    if b == 0 {
        assert(a == 1 * a);
        assert(b == 0 * a);
    } else {
        lemma_gcd_divides(b, a % b);
        let g = gcd_spec(b, a % b);
        let k1 = choose|k: nat| b == #[trigger] (k * g);
        let k2 = choose|k: nat| (a % b) == #[trigger] (k * g);
        lemma_fundamental_div_mod(a as int, b as int);
        let q = (a / b) as nat;
        assert(a == b * q + a % b);
        assert(a == (q * k1 + k2) * g) by (nonlinear_arith)
            requires
                a == b * q + a % b,
                b == k1 * g,
                a % b == k2 * g,
        ;
        assert(a == #[trigger] ((q * k1 + k2) * g));
    }
}

/// The ratio that `ratio_str` shows is the resolution's own: `w' * h == h' * w`
/// for the reduced sides `w':h'` of `w:h`.
pub proof fn ratio_str_keeps_ratio(w: nat, h: nat)
    ensures
        reduced(w, h).0 * h == reduced(w, h).1 * w,
{
    let g = gcd_spec(w, h);
    if g > 1 {
        lemma_gcd_divides(w, h);
        let k1 = choose|k: nat| w == #[trigger] (k * g);
        let k2 = choose|k: nat| h == #[trigger] (k * g);
        lemma_div_by_multiple(k1 as int, g as int);
        lemma_div_by_multiple(k2 as int, g as int);
        assert(reduced(w, h) == (k1, k2));
        assert(k1 * h == k2 * w) by (nonlinear_arith)
            requires
                w == k1 * g,
                h == k2 * g,
        ;
    } else {
        assert(w * h == h * w) by (nonlinear_arith);
    }
}

proof fn lemma_gcd_positive(a: nat, b: nat)
    requires
        a > 0 || b > 0,
    ensures
        gcd_spec(a, b) > 0,
    decreases b,
{
    if b > 0 {
        lemma_gcd_positive(b, a % b);
    }
}

/// `gcd(k * a, k * b) == k * gcd(a, b)`.
proof fn lemma_gcd_scale(k: nat, a: nat, b: nat)
    requires
        k > 0,
    ensures
        gcd_spec(k * a, k * b) == k * gcd_spec(a, b),
    decreases b,
{
    if b > 0 {
        lemma_truncate_middle(a as int, k as int, b as int);
        assert((k * a) % (k * b) == k * (a % b));
        assert(k * b > 0) by (nonlinear_arith)
            requires
                k > 0,
                b > 0,
        ;
        lemma_gcd_scale(k, b, a % b);
    } else {
        assert(k * b == 0) by (nonlinear_arith)
            requires
                b == 0,
        ;
    }
}

/// The reduced sides of `w:h`, both positive, are `w` and `h` divided by
/// their greatest common divisor, and have no common divisor above 1.
proof fn lemma_reduced_parts(w: nat, h: nat)
    requires
        w > 0,
        h > 0,
    ensures
        gcd_spec(w, h) > 0,
        w == reduced(w, h).0 * gcd_spec(w, h),
        h == reduced(w, h).1 * gcd_spec(w, h),
        reduced(w, h).0 > 0,
        reduced(w, h).1 > 0,
        gcd_spec(reduced(w, h).0, reduced(w, h).1) == 1,
{
    let g = gcd_spec(w, h);
    lemma_gcd_positive(w, h);
    lemma_gcd_divides(w, h);
    let k1 = choose|k: nat| w == #[trigger] (k * g);
    let k2 = choose|k: nat| h == #[trigger] (k * g);
    if g > 1 {
        lemma_div_by_multiple(k1 as int, g as int);
        lemma_div_by_multiple(k2 as int, g as int);
    }
    assert(reduced(w, h) == (k1, k2));
    assert(g * k1 == w && g * k2 == h) by (nonlinear_arith)
        requires
            w == k1 * g,
            h == k2 * g,
    ;
    lemma_gcd_scale(g, k1, k2);
    let c = gcd_spec(k1, k2);
    assert(c == 1) by (nonlinear_arith)
        requires
            g > 0,
            g == g * c,
    ;
    assert(k1 > 0 && k2 > 0) by (nonlinear_arith)
        requires
            w == k1 * g,
            h == k2 * g,
            w > 0,
            h > 0,
    ;
}

/// Two pairs in lowest terms that have the same ratio are the same pair.
proof fn lemma_lowest_terms_unique(p: nat, q: nat, p2: nat, q2: nat)
    requires
        q > 0,
        q2 > 0,
        gcd_spec(p, q) == 1,
        gcd_spec(p2, q2) == 1,
        p * q2 == q * p2,
    ensures
        p == p2,
        q == q2,
{
    lemma_gcd_scale(q2, p, q);
    lemma_gcd_scale(q, p2, q2);
    assert(q2 * p == q * p2 && q2 * q == q * q2) by (nonlinear_arith)
        requires
            p * q2 == q * p2,
    ;
    assert(q2 == q);
    assert(p == p2) by (nonlinear_arith)
        requires
            q > 0,
            q == q2,
            p * q2 == q * p2,
    ;
}

proof fn lemma_decimal_has_no_colon(n: nat, i: int)
    requires
        0 <= i < decimal(n).len(),
    ensures
        decimal(n)[i] != ':',
{
    lemma_decimal_digits(n);
    assert(is_ascii_digit(decimal(n)[i]));
}

/// `decimal(a):decimal(b)` is read back uniquely.
proof fn lemma_ratio_display_parts(a: nat, b: nat, c: nat, d: nat)
    requires
        decimal(a) + ":"@ + decimal(b) == decimal(c) + ":"@ + decimal(d),
    ensures
        a == c,
        b == d,
{
    let x = decimal(a);
    let y = decimal(c);
    let s = decimal(a) + ":"@ + decimal(b);
    let t = decimal(c) + ":"@ + decimal(d);
    reveal_strlit(":");
    if x.len() < y.len() {
        assert(s[x.len() as int] == ':');
        assert(t[x.len() as int] == y[x.len() as int]);
        lemma_decimal_has_no_colon(c, x.len() as int);
    } else if y.len() < x.len() {
        assert(t[y.len() as int] == ':');
        assert(s[y.len() as int] == x[y.len() as int]);
        lemma_decimal_has_no_colon(a, y.len() as int);
    }
    assert(x.len() == y.len());
    assert(s.subrange(0, x.len() as int) =~= x);
    assert(t.subrange(0, y.len() as int) =~= y);
    assert(s.subrange(x.len() as int + 1, s.len() as int) =~= decimal(b));
    assert(t.subrange(y.len() as int + 1, t.len() as int) =~= decimal(d));
    lemma_decimal_injective(a, c);
    lemma_decimal_injective(b, d);
}

/// Two resolutions with positive sides have the same aspect ratio, as
/// `ratio_equals` compares it, exactly when `ratio_str` shows the same text;
/// and the comparison does not depend on the order of the two.
pub proof fn same_ratio_iff_same_ratio_str(a: Resolution, b: Resolution)
    requires
        a.width > 0,
        a.height > 0,
        b.width > 0,
        b.height > 0,
    ensures
        (a.width * b.height == a.height * b.width) <==> (ratio_display(
            a.width as nat,
            a.height as nat,
        ) == ratio_display(b.width as nat, b.height as nat)),
        (a.width * b.height == a.height * b.width) <==> (b.width * a.height == b.height
            * a.width),
{
    let w = a.width as nat;
    let h = a.height as nat;
    let w2 = b.width as nat;
    let h2 = b.height as nat;
    lemma_reduced_parts(w, h);
    lemma_reduced_parts(w2, h2);
    let (p, q) = reduced(w, h);
    let (p2, q2) = reduced(w2, h2);
    let g = gcd_spec(w, h);
    let g2 = gcd_spec(w2, h2);
    if w * h2 == h * w2 {
        assert(p * q2 == q * p2) by (nonlinear_arith)
            requires
                w == p * g,
                h == q * g,
                w2 == p2 * g2,
                h2 == q2 * g2,
                g > 0,
                g2 > 0,
                w * h2 == h * w2,
        ;
        lemma_lowest_terms_unique(p, q, p2, q2);
    }
    if ratio_display(w, h) == ratio_display(w2, h2) {
        lemma_ratio_display_parts(p, q, p2, q2);
        assert(w * h2 == h * w2) by (nonlinear_arith)
            requires
                w == p * g,
                h == q * g,
                w2 == p * g2,
                h2 == q * g2,
        ;
    }
}

} // verus!
