//! Modular and elliptic-curve arithmetic for the Citrus key exchange, over
//! integers that `num-bigint` computes with.
use vstd::prelude::*;

use vstd::arithmetic::power::pow;

verus! {

/// The value of little-endian `bytes`.
pub open spec fn le_value(bytes: Seq<u8>) -> nat
    decreases bytes.len(),
{
    if bytes.len() == 0 {
        0
    } else {
        bytes[0] as nat + 256 * le_value(bytes.drop_first())
    }
}

/// `a` modulo `m`, rounded like floored division: in `[0, m)` for a positive
/// `m` and in `(m, 0]` for a negative one.
pub open spec fn mod_floor_spec(a: int, m: int) -> int {
    if m > 0 {
        a % m
    } else {
        let r = a % (-m);
        if r == 0 {
            0
        } else {
            r + m
        }
    }
}

/// An integer: a sign and the little-endian bytes of its magnitude.
#[derive(Debug)]
pub struct Integer {
    pub negative: bool,
    pub magnitude: Vec<u8>,
}

impl Integer {
    /// The value of this integer.
    pub open spec fn value(&self) -> int {
        if self.negative {
            -(le_value(self.magnitude@) as int)
        } else {
            le_value(self.magnitude@) as int
        }
    }
}

/// Calls `BigInt + BigInt` on the two integers, converted by their sign and
/// little-endian magnitude. Claimed: the sum.
#[verifier::external_body]
fn big_add(x: &Integer, y: &Integer) -> (r: Integer)
    ensures
        r.value() == x.value() + y.value(),
{
    let sx = if x.negative { num_bigint::Sign::Minus } else { num_bigint::Sign::Plus };
    let sy = if y.negative { num_bigint::Sign::Minus } else { num_bigint::Sign::Plus };
    let sum = num_bigint::BigInt::from_bytes_le(sx, &x.magnitude)
        + num_bigint::BigInt::from_bytes_le(sy, &y.magnitude);
    let (sign, magnitude) = sum.to_bytes_le();
    Integer { negative: sign == num_bigint::Sign::Minus, magnitude }
}

/// Calls `BigInt - BigInt` on the two integers, converted by their sign and
/// little-endian magnitude. Claimed: the difference.
#[verifier::external_body]
fn big_sub(x: &Integer, y: &Integer) -> (r: Integer)
    ensures
        r.value() == x.value() - y.value(),
{
    let sx = if x.negative { num_bigint::Sign::Minus } else { num_bigint::Sign::Plus };
    let sy = if y.negative { num_bigint::Sign::Minus } else { num_bigint::Sign::Plus };
    let difference = num_bigint::BigInt::from_bytes_le(sx, &x.magnitude)
        - num_bigint::BigInt::from_bytes_le(sy, &y.magnitude);
    let (sign, magnitude) = difference.to_bytes_le();
    Integer { negative: sign == num_bigint::Sign::Minus, magnitude }
}

/// Calls `BigInt * BigInt` on the two integers, converted by their sign and
/// little-endian magnitude. Claimed: the product.
#[verifier::external_body]
fn big_mul(x: &Integer, y: &Integer) -> (r: Integer)
    ensures
        r.value() == x.value() * y.value(),
{
    let sx = if x.negative { num_bigint::Sign::Minus } else { num_bigint::Sign::Plus };
    let sy = if y.negative { num_bigint::Sign::Minus } else { num_bigint::Sign::Plus };
    let product = num_bigint::BigInt::from_bytes_le(sx, &x.magnitude)
        * num_bigint::BigInt::from_bytes_le(sy, &y.magnitude);
    let (sign, magnitude) = product.to_bytes_le();
    Integer { negative: sign == num_bigint::Sign::Minus, magnitude }
}

/// Calls `num_integer::Integer::mod_floor` on `x` and a nonzero `modulus`
/// (it panics on zero). Claimed, as its documentation gives it: the remainder
/// of floored division.
#[verifier::external_body]
fn big_mod_floor(x: &Integer, modulus: &Integer) -> (r: Integer)
    requires
        modulus.value() != 0,
    ensures
        r.value() == mod_floor_spec(x.value(), modulus.value()),
{
    let sx = if x.negative { num_bigint::Sign::Minus } else { num_bigint::Sign::Plus };
    let sm = if modulus.negative { num_bigint::Sign::Minus } else { num_bigint::Sign::Plus };
    let rest = num_integer::Integer::mod_floor(
        &num_bigint::BigInt::from_bytes_le(sx, &x.magnitude),
        &num_bigint::BigInt::from_bytes_le(sm, &modulus.magnitude),
    );
    let (sign, magnitude) = rest.to_bytes_le();
    Integer { negative: sign == num_bigint::Sign::Minus, magnitude }
}

/// Calls `BigInt::modpow` on `base`, a nonnegative `exponent` and a nonzero
/// `modulus` (it panics otherwise). Claimed, as its documentation gives it:
/// `base ^ exponent` reduced like `mod_floor`.
#[verifier::external_body]
fn big_modpow(base: &Integer, exponent: &Integer, modulus: &Integer) -> (r: Integer)
    requires
        exponent.value() >= 0,
        modulus.value() != 0,
    ensures
        r.value() == mod_floor_spec(pow(base.value(), exponent.value() as nat), modulus.value()),
{
    let sb = if base.negative { num_bigint::Sign::Minus } else { num_bigint::Sign::Plus };
    let se = if exponent.negative { num_bigint::Sign::Minus } else { num_bigint::Sign::Plus };
    let sm = if modulus.negative { num_bigint::Sign::Minus } else { num_bigint::Sign::Plus };
    let power = num_bigint::BigInt::from_bytes_le(sb, &base.magnitude).modpow(
        &num_bigint::BigInt::from_bytes_le(se, &exponent.magnitude),
        &num_bigint::BigInt::from_bytes_le(sm, &modulus.magnitude),
    );
    let (sign, magnitude) = power.to_bytes_le();
    Integer { negative: sign == num_bigint::Sign::Minus, magnitude }
}

/// Calls `BigInt >> 1` on `x`. Claimed, as the source rounds it: `x / 2`
/// rounded down, also for a negative `x`.
#[verifier::external_body]
fn big_shr1(x: &Integer) -> (r: Integer)
    ensures
        r.value() == x.value() / 2,
{
    let sx = if x.negative { num_bigint::Sign::Minus } else { num_bigint::Sign::Plus };
    let half = num_bigint::BigInt::from_bytes_le(sx, &x.magnitude) >> 1u32;
    let (sign, magnitude) = half.to_bytes_le();
    Integer { negative: sign == num_bigint::Sign::Minus, magnitude }
}

/// Calls `BigInt::cmp` on the two integers. Claimed: the order of their values,
/// as -1, 0 or 1.
#[verifier::external_body]
fn big_compare(x: &Integer, y: &Integer) -> (r: i8)
    ensures
        r == -1 <==> x.value() < y.value(),
        r == 0 <==> x.value() == y.value(),
        r == 1 <==> x.value() > y.value(),
{
    let sx = if x.negative { num_bigint::Sign::Minus } else { num_bigint::Sign::Plus };
    let sy = if y.negative { num_bigint::Sign::Minus } else { num_bigint::Sign::Plus };
    match num_bigint::BigInt::from_bytes_le(sx, &x.magnitude).cmp(
        &num_bigint::BigInt::from_bytes_le(sy, &y.magnitude),
    ) {
        core::cmp::Ordering::Less => -1,
        core::cmp::Ordering::Equal => 0,
        core::cmp::Ordering::Greater => 1,
    }
}

} // verus!
verus! {

/// `|x|`.
pub open spec fn abs(x: int) -> int {
    if x < 0 {
        -x
    } else {
        x
    }
}

/// The `n` low little-endian bytes of `v`.
pub open spec fn low_bytes(v: nat, n: nat) -> Seq<u8>
    decreases n,
{
    if n == 0 {
        Seq::empty()
    } else {
        seq![(v % 256) as u8] + low_bytes(v / 256, (n - 1) as nat)
    }
}

/// The integer operations that elliptic-curve arithmetic needs, each reduced
/// modulo a nonzero modulus, like floored division, where it takes one.
pub trait EccInteger: Sized {
    /// The value of this integer.
    spec fn int_value(&self) -> int;

    /// The integer `value`.
    fn from_u64(value: u64) -> (r: Self)
        ensures
            r.int_value() == value,
    ;

    /// `self ^ exponent` modulo `modulus`.
    fn mod_exp(&self, exponent: &Self, modulus: &Self) -> (r: Self)
        requires
            exponent.int_value() >= 0,
            modulus.int_value() != 0,
        ensures
            r.int_value() == mod_floor_spec(
                pow(self.int_value(), exponent.int_value() as nat),
                modulus.int_value(),
            ),
    ;

    /// The nonnegative integer of little-endian `bytes`.
    fn from_bytes_le(bytes: &[u8]) -> (r: Self)
        ensures
            r.int_value() == le_value(bytes@),
    ;

    /// The `N` low little-endian bytes of the magnitude.
    fn to_bytes_le<const N: usize>(&self) -> (r: [u8; N])
        ensures
            r@ == low_bytes(abs(self.int_value()) as nat, N as nat),
    ;

    /// `self + other` modulo `modulus`.
    fn add_mod(&self, other: &Self, modulus: &Self) -> (r: Self)
        requires
            modulus.int_value() != 0,
        ensures
            r.int_value() == mod_floor_spec(self.int_value() + other.int_value(), modulus.int_value()),
    ;

    /// `self - other` modulo `modulus`.
    fn sub_mod(&self, other: &Self, modulus: &Self) -> (r: Self)
        requires
            modulus.int_value() != 0,
        ensures
            r.int_value() == mod_floor_spec(self.int_value() - other.int_value(), modulus.int_value()),
    ;

    /// `self * other` modulo `modulus`.
    fn mul_mod(&self, other: &Self, modulus: &Self) -> (r: Self)
        requires
            modulus.int_value() != 0,
        ensures
            r.int_value() == mod_floor_spec(self.int_value() * other.int_value(), modulus.int_value()),
    ;

    /// The integer is odd.
    fn is_odd(&self) -> (r: bool)
        ensures
            r == (self.int_value() % 2 == 1),
    ;

    /// Half the integer, rounded down.
    fn div_2(&self) -> (r: Self)
        ensures
            r.int_value() == self.int_value() / 2,
    ;

    /// A copy of the integer.
    fn duplicate(&self) -> (r: Self)
        ensures
            r.int_value() == self.int_value(),
    ;

    /// The order of the two integers: -1, 0 or 1.
    fn compare(&self, other: &Self) -> (r: i8)
        ensures
            r == -1 <==> self.int_value() < other.int_value(),
            r == 0 <==> self.int_value() == other.int_value(),
            r == 1 <==> self.int_value() > other.int_value(),
    ;

    /// The eight low little-endian bytes of the magnitude.
    fn to_u64_le_bytes(&self) -> (r: [u8; 8])
        ensures
            r@ == low_bytes(abs(self.int_value()) as nat, 8),
    {
        let bytes = self.to_bytes_le::<32>();
        let mut out = [0u8; 8];
        let mut i: usize = 0;
        while i < 8
            invariant
                i <= 8,
                out@.len() == 8,
                bytes@ == low_bytes(abs(self.int_value()) as nat, 32),
                forall|j: int| 0 <= j < i ==> out@[j] == bytes@[j],
            decreases 8 - i,
        {
            out[i] = bytes[i];
            i = i + 1;
        }
        proof {
            lemma_low_bytes_prefix(abs(self.int_value()) as nat, 8, 32);
            assert(out@ =~= bytes@.take(8));
        }
        out
    }
}

/// The low bytes of a value are a prefix of more of its low bytes.
pub proof fn lemma_low_bytes_prefix(v: nat, n: nat, m: nat)
    requires
        n <= m,
    ensures
        low_bytes(v, n) == low_bytes(v, m).take(n as int),
        low_bytes(v, m).len() == m,
    decreases n, m,
{
    if m == 0 {
        assert(low_bytes(v, m).take(n as int) =~= Seq::<u8>::empty());
    } else {
        lemma_low_bytes_prefix(v / 256, 0, (m - 1) as nat);
        if n == 0 {
            assert(low_bytes(v, m).take(0) =~= Seq::<u8>::empty());
        } else {
            lemma_low_bytes_prefix(v / 256, (n - 1) as nat, (m - 1) as nat);
            assert(low_bytes(v, m).take(n as int) =~= seq![(v % 256) as u8] + low_bytes(
                v / 256,
                (m - 1) as nat,
            ).take(n - 1));
        }
    }
}

/// Calls `BigInt::from(u64)`. Claimed: the integer `value`.
#[verifier::external_body]
fn big_from_u64(value: u64) -> (r: Integer)
    ensures
        r.value() == value,
{
    let (sign, magnitude) = num_bigint::BigInt::from(value).to_bytes_le();
    Integer { negative: sign == num_bigint::Sign::Minus, magnitude }
}

/// A little-endian value's low bytes are its bytes, then zeros.
proof fn lemma_low_bytes_of_le(bytes: Seq<u8>, n: nat)
    ensures
        low_bytes(le_value(bytes), n).len() == n,
        forall|i: int|
            0 <= i < n ==> #[trigger] low_bytes(le_value(bytes), n)[i] == if i < bytes.len() {
                bytes[i]
            } else {
                0u8
            },
    decreases n,
{
    if n > 0 {
        let v = le_value(bytes);
        if bytes.len() == 0 {
            lemma_low_bytes_of_le(bytes, (n - 1) as nat);
            assert(v / 256 == 0);
            assert(low_bytes(v, n) =~= seq![0u8] + low_bytes(le_value(bytes), (n - 1) as nat));
        } else {
            let rest = bytes.drop_first();
            lemma_low_bytes_of_le(rest, (n - 1) as nat);
            assert(v % 256 == bytes[0] as nat);
            assert(v / 256 == le_value(rest));
            assert forall|i: int| 0 <= i < n implies #[trigger] low_bytes(v, n)[i] == if i
                < bytes.len() {
                bytes[i]
            } else {
                0u8
            } by {
                if i > 0 {
                    assert(low_bytes(v, n)[i] == low_bytes(le_value(rest), (n - 1) as nat)[i - 1]);
                }
            }
        }
    }
}

/// The parity of a little-endian value is that of its first byte.
proof fn lemma_le_value_parity(bytes: Seq<u8>)
    ensures
        bytes.len() == 0 ==> le_value(bytes) == 0,
        bytes.len() > 0 ==> le_value(bytes) % 2 == bytes[0] % 2,
{
    if bytes.len() > 0 {
        let rest = le_value(bytes.drop_first());
        assert((bytes[0] as nat + 256 * rest) % 2 == bytes[0] % 2) by (nonlinear_arith);
    }
}

impl EccInteger for Integer {
    open spec fn int_value(&self) -> int {
        self.value()
    }

    fn from_u64(value: u64) -> (r: Self) {
        big_from_u64(value)
    }

    fn mod_exp(&self, exponent: &Self, modulus: &Self) -> (r: Self) {
        big_modpow(self, exponent, modulus)
    }

    fn from_bytes_le(bytes: &[u8]) -> (r: Self) {
        let mut magnitude: Vec<u8> = Vec::new();
        crate::bytes::push_all(&mut magnitude, bytes);
        assert(magnitude@ =~= bytes@);
        Integer { negative: false, magnitude }
    }

    fn to_bytes_le<const N: usize>(&self) -> (r: [u8; N]) {
        let mut output = [0u8; N];
        let mut i: usize = 0;
        proof {
            lemma_low_bytes_of_le(self.magnitude@, N as nat);
        }
        let ghost expected = low_bytes(le_value(self.magnitude@), N as nat);
        while i < N
            invariant
                i <= N,
                output@.len() == N,
                expected == low_bytes(le_value(self.magnitude@), N as nat),
                expected.len() == N,
                forall|j: int|
                    0 <= j < N ==> #[trigger] expected[j] == if j < self.magnitude@.len() {
                        self.magnitude@[j]
                    } else {
                        0u8
                    },
                forall|j: int| 0 <= j < i ==> output@[j] == expected[j],
            decreases N - i,
        {
            if i < self.magnitude.len() {
                output[i] = self.magnitude[i];
            } else {
                output[i] = 0;
            }
            i = i + 1;
        }
        assert(output@ =~= expected);
        output
    }

    fn add_mod(&self, other: &Self, modulus: &Self) -> (r: Self) {
        big_mod_floor(&big_add(self, other), modulus)
    }

    fn sub_mod(&self, other: &Self, modulus: &Self) -> (r: Self) {
        big_mod_floor(&big_sub(self, other), modulus)
    }

    fn mul_mod(&self, other: &Self, modulus: &Self) -> (r: Self) {
        big_mod_floor(&big_mul(self, other), modulus)
    }

    fn is_odd(&self) -> (r: bool) {
        proof {
            lemma_le_value_parity(self.magnitude@);
        }
        self.magnitude.len() > 0 && self.magnitude[0] % 2 == 1
    }

    fn div_2(&self) -> (r: Self) {
        big_shr1(self)
    }

    fn duplicate(&self) -> (r: Self) {
        let mut magnitude: Vec<u8> = Vec::new();
        crate::bytes::push_all(&mut magnitude, self.magnitude.as_slice());
        assert(magnitude@ =~= self.magnitude@);
        Integer { negative: self.negative, magnitude }
    }

    fn compare(&self, other: &Self) -> (r: i8) {
        big_compare(self, other)
    }
}

/// The `n` low bytes of `v` read back as `v` modulo `256^n`: writing an
/// integer's low bytes and reading them again keeps it exactly when it fits.
pub proof fn lemma_low_bytes_value(v: nat, n: nat)
    ensures
        le_value(low_bytes(v, n)) == v % pow(256, n) as nat,
        v < pow(256, n) ==> le_value(low_bytes(v, n)) == v,
    decreases n,
{
    vstd::arithmetic::power::lemma_pow_positive(256, n);
    if n == 0 {
        assert(low_bytes(v, n) =~= Seq::<u8>::empty());
        reveal(pow);
        assert(v % 1 == 0);
    } else {
        let m = pow(256, (n - 1) as nat);
        vstd::arithmetic::power::lemma_pow_positive(256, (n - 1) as nat);
        lemma_low_bytes_value(v / 256, (n - 1) as nat);
        let b = low_bytes(v, n);
        assert(b.drop_first() =~= low_bytes(v / 256, (n - 1) as nat));
        assert(b[0] == (v % 256) as u8);
        vstd::arithmetic::div_mod::lemma_breakdown(v as int, 256, m);
        reveal(pow);
        assert(pow(256, n) == 256 * m);
        assert(le_value(b) == (v % 256) + 256 * ((v / 256) % m as nat));
        if v < pow(256, n) {
            vstd::arithmetic::div_mod::lemma_small_mod(v, pow(256, n) as nat);
        }
    }
}

/// The nonnegative integer of little-endian `bytes`.
pub fn bytes_to_int(bytes: &[u8]) -> (r: Integer)
    ensures
        r.value() == le_value(bytes@),
{
    Integer::from_bytes_le(bytes)
}

/// The `N` low little-endian bytes of the magnitude of `value`.
pub fn int_to_bytes_le<const N: usize>(value: &Integer) -> (r: [u8; N])
    ensures
        r@ == low_bytes(abs(value.value()) as nat, N as nat),
        le_value(r@) == (abs(value.value()) as nat) % pow(256, N as nat) as nat,
{
    proof {
        lemma_low_bytes_value(abs(value.value()) as nat, N as nat);
    }
    value.to_bytes_le::<N>()
}

/// The inverse of `v` modulo a prime `m` by Fermat: `v ^ (m - 2)` reduced
/// modulo `m`, the exponent reduced first.
pub open spec fn inverse_spec(v: int, m: int) -> int {
    mod_floor_spec(pow(v, mod_floor_spec(m - 2, m) as nat), m)
}

/// `value ^ (modulus - 2)` modulo `modulus`, the inverse of `value` where the
/// modulus is prime. Below -2 the reduced exponent is negative, which the
/// modular power refuses.
fn mod_inverse<T: EccInteger>(value: &T, modulus: &T) -> (r: T)
    requires
        modulus.int_value() != 0,
        modulus.int_value() >= -2,
    ensures
        r.int_value() == inverse_spec(value.int_value(), modulus.int_value()),
{
    let two = T::from_u64(2);
    value.mod_exp(&modulus.sub_mod(&two, modulus), modulus)
}

/// The values of a point, or `None` for the point at infinity.
pub open spec fn point_view<T: EccInteger>(p: Option<(T, T)>) -> Option<(int, int)> {
    match p {
        Some((x, y)) => Some((x.int_value(), y.int_value())),
        None => None,
    }
}

/// Whether adding `p` and `q` computes a slope: both are finite and they are
/// neither opposite nor a point of order two doubled.
pub open spec fn needs_slope(p: Option<(int, int)>, q: Option<(int, int)>) -> bool {
    match (p, q) {
        (Some((x1, y1)), Some((x2, y2))) => !(x1 == x2 && (y1 != y2 || y1 == 0)),
        _ => false,
    }
}

/// The sum of points `p` and `q` on the curve `y^2 = x^3 + a x + b` modulo
/// `m`, with every step reduced modulo `m` by floored division; `None` is the
/// point at infinity.
pub open spec fn ec_add(p: Option<(int, int)>, q: Option<(int, int)>, a: int, m: int) -> Option<
    (int, int),
> {
    match p {
        None => q,
        Some((x1, y1)) => match q {
            None => p,
            Some((x2, y2)) => if x1 == x2 && (y1 != y2 || y1 == 0) {
                None
            } else {
                let slope = if x1 == x2 && y1 == y2 {
                    let numerator = mod_floor_spec(
                        mod_floor_spec(mod_floor_spec(x1 * x1, m) * 3, m) + a,
                        m,
                    );
                    let denominator = mod_floor_spec(y1 * 2, m);
                    mod_floor_spec(numerator * inverse_spec(denominator, m), m)
                } else {
                    let numerator = mod_floor_spec(y2 - y1, m);
                    let denominator = mod_floor_spec(x2 - x1, m);
                    mod_floor_spec(numerator * inverse_spec(denominator, m), m)
                };
                let x3 = mod_floor_spec(mod_floor_spec(mod_floor_spec(slope * slope, m) - x1, m) - x2, m);
                let y3 = mod_floor_spec(mod_floor_spec(slope * mod_floor_spec(x1 - x3, m), m) - y1, m);
                Some((x3, y3))
            },
        },
    }
}

/// Adds two points on the curve `y^2 = x^3 + a x + b` modulo `modulus`;
/// `None` is the point at infinity. A slope is inverted by a modular power
/// whose exponent is negative for a modulus below -2, so there no slope may
/// be needed.
pub fn point_add<T: EccInteger>(
    first: Option<(T, T)>,
    second: Option<(T, T)>,
    a: &T,
    modulus: &T,
) -> (r: Option<(T, T)>)
    requires
        modulus.int_value() != 0,
        modulus.int_value() < -2 ==> !needs_slope(point_view(first), point_view(second)),
    ensures
        point_view(r) == ec_add(point_view(first), point_view(second), a.int_value(), modulus.int_value()),
{
    let (x1, y1) = match first {
        Some(p) => p,
        None => return second,
    };
    let (x2, y2) = match second {
        Some(p) => p,
        None => return Some((x1, y1)),
    };
    let zero = T::from_u64(0);
    let same_x = x1.compare(&x2) == 0;
    let same_y = y1.compare(&y2) == 0;
    if same_x && (!same_y || y1.compare(&zero) == 0) {
        return None;
    }
    let slope = if same_x && same_y {
        let numerator = x1.mul_mod(&x1, modulus).mul_mod(&T::from_u64(3), modulus).add_mod(
            a,
            modulus,
        );
        let denominator = y1.mul_mod(&T::from_u64(2), modulus);
        numerator.mul_mod(&mod_inverse(&denominator, modulus), modulus)
    } else {
        let numerator = y2.sub_mod(&y1, modulus);
        let denominator = x2.sub_mod(&x1, modulus);
        numerator.mul_mod(&mod_inverse(&denominator, modulus), modulus)
    };
    let x3 = slope.mul_mod(&slope, modulus).sub_mod(&x1, modulus).sub_mod(&x2, modulus);
    let y3 = slope.mul_mod(&x1.sub_mod(&x3, modulus), modulus).sub_mod(&y1, modulus);
    Some((x3, y3))
}

/// `k` times `addend` added to `result` by doubling and adding, one bit of
/// `k` at a time from the lowest.
pub open spec fn scalar_mult_spec(
    k: int,
    result: Option<(int, int)>,
    addend: Option<(int, int)>,
    a: int,
    m: int,
) -> Option<(int, int)>
    decreases k,
{
    if k <= 0 {
        result
    } else {
        let next = if k % 2 == 1 {
            ec_add(result, addend, a, m)
        } else {
            result
        };
        let doubled = match addend {
            Some(v) => ec_add(Some(v), Some(v), a, m),
            None => None,
        };
        scalar_mult_spec(k / 2, next, doubled, a, m)
    }
}

/// A copy of a point.
fn copy_point<T: EccInteger>(p: &Option<(T, T)>) -> (r: Option<(T, T)>)
    ensures
        point_view(r) == point_view(*p),
{
    match p {
        Some((x, y)) => Some((x.duplicate(), y.duplicate())),
        None => None,
    }
}

/// `k` times `point` on the curve `y^2 = x^3 + a x + b` modulo `modulus`, by
/// doubling and adding; `None` is the point at infinity. Below a modulus of
/// -2 no slope can be inverted, so there a positive `k` needs a point of
/// order two.
pub fn scalar_mult<T: EccInteger>(k: &T, point: (T, T), a: &T, modulus: &T) -> (r: Option<(T, T)>)
    requires
        modulus.int_value() != 0,
        modulus.int_value() < -2 && k.int_value() > 0 ==> point.1.int_value() == 0,
    ensures
        point_view(r) == scalar_mult_spec(
            k.int_value(),
            None,
            point_view(Some(point)),
            a.int_value(),
            modulus.int_value(),
        ),
{
    let ghost start = point_view(Some(point));
    let mut result: Option<(T, T)> = None;
    let mut addend: Option<(T, T)> = Some(point);
    let mut factor = k.duplicate();
    let zero = T::from_u64(0);
    while factor.compare(&zero) == 1
        invariant
            modulus.int_value() != 0,
            zero.int_value() == 0,
            modulus.int_value() < -2 && factor.int_value() > 0 ==> (addend matches Some(v) ==> (
            v.1.int_value() == 0 && result is None)),
            scalar_mult_spec(k.int_value(), None, start, a.int_value(), modulus.int_value())
                == scalar_mult_spec(
                factor.int_value(),
                point_view(result),
                point_view(addend),
                a.int_value(),
                modulus.int_value(),
            ),
        decreases factor.int_value(),
    {
        if factor.is_odd() {
            result = point_add(result, copy_point(&addend), a, modulus);
        }
        addend = match addend {
            Some(v) => {
                let copy = (v.0.duplicate(), v.1.duplicate());
                point_add(Some(copy), Some(v), a, modulus)
            },
            None => None,
        };
        factor = factor.div_2();
    }
    result
}

} // verus!
