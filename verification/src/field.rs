use vstd::prelude::*;
use lambdaworks_math::field::element::FieldElement;
use lambdaworks_math::field::fields::fft_friendly::stark_252_prime_field::Stark252PrimeField;
use lambdaworks_math::field::traits::HasDefaultTranscript;
use lambdaworks_math::polynomial::Polynomial;
use lambdaworks_math::traits::ByteConversion;
use lambdaworks_math::unsigned_integer::element::U256;

verus! {

/// The prime modulus `2^251 + 17 * 2^192 + 1` of the field.
pub open spec fn modulus() -> nat {
    3618502788666131213697322783095070105623107215331596699973092056135872020481nat
}

/// `2^256`, the Montgomery radix of the field's four-limb representation.
pub open spec fn montgomery_radix() -> nat {
    0x1_0000_0000_0000_0000_0000_0000_0000_0000_0000_0000_0000_0000_0000_0000_0000_0000nat
}

/// The Montgomery form `v * 2^256 mod p` in which the field holds `v`.
pub open spec fn montgomery_form(v: nat) -> nat {
    (v * montgomery_radix()) % modulus()
}

/// Field addition on representatives.
pub open spec fn fadd(a: nat, b: nat) -> nat {
    (a + b) % modulus()
}

/// Field multiplication on representatives.
pub open spec fn fmul(a: nat, b: nat) -> nat {
    (a * b) % modulus()
}

/// Field subtraction on representatives.
pub open spec fn fsub(a: nat, b: nat) -> nat {
    ((a % modulus()) + modulus() - (b % modulus())) as nat % modulus()
}

/// Field negation on representatives.
pub open spec fn fneg(a: nat) -> nat {
    fsub(0, a)
}

/// The multiplicative inverse of a non-zero element.
pub open spec fn finv(a: nat) -> nat {
    choose|w: nat| w < modulus() && #[trigger] fmul(a, w) == 1
}

/// Whether `a` is a square in the field.
pub open spec fn is_square(a: nat) -> bool {
    exists|y: nat| #[trigger] fmul(y, y) == a % modulus()
}

/// The integer that a big-endian byte string spells.
pub open spec fn be_nat(s: Seq<u8>) -> nat
    decreases s.len(),
{
    if s.len() == 0 {
        0
    } else {
        be_nat(s.drop_last()) * 256 + s.last() as nat
    }
}

/// The integer that four big-endian 64-bit limbs spell.
pub open spec fn limbs_nat(l: [u64; 4]) -> nat {
    l[0] as nat * 0x1_0000_0000_0000_0000_0000_0000_0000_0000_0000_0000_0000_0000nat
        + l[1] as nat * 0x1_0000_0000_0000_0000_0000_0000_0000_0000nat
        + l[2] as nat * 0x1_0000_0000_0000_0000nat
        + l[3] as nat
}

/// The value at zero of the polynomial `prod_{j < k, j != i} (X - xs[j]) / (xs[i] - xs[j])`.
pub open spec fn lagrange_basis_at_zero(xs: Seq<nat>, i: int, k: nat) -> nat
    decreases k,
{
    if k == 0 {
        1
    } else {
        let j = k - 1;
        let rest = lagrange_basis_at_zero(xs, i, (k - 1) as nat);
        if j == i {
            rest
        } else {
            fmul(rest, fmul(fneg(xs[j]), finv(fsub(xs[i], xs[j]))))
        }
    }
}

/// `sum_{i < k} ys[i] * basis_i(0)`: the value at zero of the polynomial of
/// degree below `xs.len()` through the points `(xs[i], ys[i])`, when `k == xs.len()`.
pub open spec fn lagrange_at_zero_upto(xs: Seq<nat>, ys: Seq<nat>, k: nat) -> nat
    decreases k,
{
    if k == 0 {
        0
    } else {
        fadd(
            lagrange_at_zero_upto(xs, ys, (k - 1) as nat),
            fmul(ys[k - 1], lagrange_basis_at_zero(xs, k - 1, xs.len())),
        )
    }
}

/// The value at zero of the interpolating polynomial through `(xs[i], ys[i])`.
pub open spec fn lagrange_at_zero(xs: Seq<nat>, ys: Seq<nat>) -> nat {
    lagrange_at_zero_upto(xs, ys, xs.len())
}

/// All values of `xs` differ.
pub open spec fn distinct(xs: Seq<nat>) -> bool {
    forall|i: int, j: int| 0 <= i < j < xs.len() ==> xs[i] != xs[j]
}

/// An element of the prime field, held as the four 64-bit limbs of a
/// representative, most significant limb first.
#[derive(Clone, Copy, Debug, PartialEq, Eq)]
pub struct LargeField {
    pub limbs: [u64; 4],
}

/// The serialized form of a field element: its 32 big-endian bytes.
pub type LargeFieldSer = [u8; 32];

impl LargeField {
    /// The field element that this value stands for, in `[0, modulus())`.
    pub open spec fn val(self) -> nat {
        limbs_nat(self.limbs) % modulus()
    }

    /// The limbs hold the canonical representative.
    pub open spec fn canonical(self) -> bool {
        limbs_nat(self.limbs) < modulus()
    }
}

/// The field values of a sequence of elements.
pub open spec fn vals(s: Seq<LargeField>) -> Seq<nat> {
    s.map_values(|x: LargeField| x.val())
}

/// Every element holds its canonical representative.
pub open spec fn all_canonical(s: Seq<LargeField>) -> bool {
    forall|i: int| 0 <= i < s.len() ==> (#[trigger] s[i]).canonical()
}

/// `post` is `pre` followed by elements that hold their canonical representative.
pub open spec fn extends_canonically(post: Seq<LargeField>, pre: Seq<LargeField>) -> bool {
    &&& pre.len() <= post.len()
    &&& post.subrange(0, pre.len() as int) == pre
    &&& forall|i: int| pre.len() <= i < post.len() ==> (#[trigger] post[i]).canonical()
}

/// Appending elements that hold their canonical representatives extends
/// canonically, and keeps every element canonical if all were.
pub proof fn lemma_extends_by(pre: Seq<LargeField>, added: Seq<LargeField>)
    requires
        all_canonical(added),
    ensures
        extends_canonically(pre + added, pre),
        all_canonical(pre) ==> all_canonical(pre + added),
{
    assert((pre + added).subrange(0, pre.len() as int) =~= pre);
    assert forall|i: int| pre.len() <= i < (pre + added).len() implies (#[trigger] (pre + added)[i]).canonical() by {
        assert((pre + added)[i] == added[i - pre.len()]);
    }
}

/// Calls `FieldElement::<Stark252PrimeField>::from(u64)`: the element `x`.
#[verifier::external_body]
fn fe_from_u64(x: u64) -> (r: LargeField)
    ensures
        r.canonical(),
        r.val() == x as nat % modulus(),
{
    LargeField { limbs: FieldElement::<Stark252PrimeField>::from(x).representative().limbs }
}

/// Calls `HasDefaultTranscript::get_random_field_element_from_rng` of
/// `Stark252PrimeField` with `rand::thread_rng()`: an element drawn at random.
/// Only that its representative is canonical is stated; which element comes
/// out rests on chance.
#[verifier::external_body]
fn fe_random() -> (r: LargeField)
    ensures
        r.canonical(),
{
    let x = Stark252PrimeField::get_random_field_element_from_rng(&mut rand::thread_rng());
    LargeField { limbs: x.representative().limbs }
}

/// Calls `FieldElement::<Stark252PrimeField>::zero`: the additive neutral element.
#[verifier::external_body]
fn fe_zero() -> (r: LargeField)
    ensures
        r.canonical(),
        r.val() == 0,
{
    LargeField { limbs: FieldElement::<Stark252PrimeField>::zero().representative().limbs }
}

/// Calls `FieldElement::<Stark252PrimeField>::one`: the multiplicative neutral element.
#[verifier::external_body]
fn fe_one() -> (r: LargeField)
    ensures
        r.canonical(),
        r.val() == 1,
{
    LargeField { limbs: FieldElement::<Stark252PrimeField>::one().representative().limbs }
}

/// Calls the `+` operator of `FieldElement::<Stark252PrimeField>`: the sum in the field.
#[verifier::external_body]
fn fe_add(a: &LargeField, b: &LargeField) -> (r: LargeField)
    ensures
        r.canonical(),
        r.val() == fadd(a.val(), b.val()),
{
    let x = FieldElement::<Stark252PrimeField>::from(&U256 { limbs: a.limbs });
    let y = FieldElement::<Stark252PrimeField>::from(&U256 { limbs: b.limbs });
    LargeField { limbs: (x + y).representative().limbs }
}

/// Calls the `-` operator of `FieldElement::<Stark252PrimeField>`: the difference in the field.
#[verifier::external_body]
fn fe_sub(a: &LargeField, b: &LargeField) -> (r: LargeField)
    ensures
        r.canonical(),
        r.val() == fsub(a.val(), b.val()),
{
    let x = FieldElement::<Stark252PrimeField>::from(&U256 { limbs: a.limbs });
    let y = FieldElement::<Stark252PrimeField>::from(&U256 { limbs: b.limbs });
    LargeField { limbs: (x - y).representative().limbs }
}

/// Calls the `*` operator of `FieldElement::<Stark252PrimeField>`: the product in the field.
#[verifier::external_body]
fn fe_mul(a: &LargeField, b: &LargeField) -> (r: LargeField)
    ensures
        r.canonical(),
        r.val() == fmul(a.val(), b.val()),
{
    let x = FieldElement::<Stark252PrimeField>::from(&U256 { limbs: a.limbs });
    let y = FieldElement::<Stark252PrimeField>::from(&U256 { limbs: b.limbs });
    LargeField { limbs: (x * y).representative().limbs }
}

/// Calls `FieldElement::<Stark252PrimeField>::inv`: the error `InvZeroError`
/// exactly for zero, else the multiplicative inverse.
#[verifier::external_body]
fn fe_inv(a: &LargeField) -> (r: Option<LargeField>)
    ensures
        r is None <==> a.val() == 0,
        r matches Some(w) ==> w.canonical() && w.val() == finv(a.val()) && fmul(a.val(), w.val()) == 1,
{
    match FieldElement::<Stark252PrimeField>::from(&U256 { limbs: a.limbs }).inv() {
        Ok(w) => Some(LargeField { limbs: w.representative().limbs }),
        Err(_) => None,
    }
}

/// The square root that `FieldElement::<Stark252PrimeField>::sqrt` returns
/// first for the element `a`.
pub uninterp spec fn sqrt_root(a: nat) -> nat;

/// Calls `FieldElement::<Stark252PrimeField>::sqrt`: `None` exactly for a
/// non-square, else a root (named `sqrt_root`) and its negation.
#[verifier::external_body]
fn fe_sqrt(a: &LargeField) -> (r: Option<(LargeField, LargeField)>)
    ensures
        r is None <==> !is_square(a.val()),
        r matches Some(p) ==> {
            &&& p.0.canonical()
            &&& p.1.canonical()
            &&& p.0.val() == sqrt_root(a.val())
            &&& fmul(p.0.val(), p.0.val()) == a.val()
            &&& p.1.val() == fneg(p.0.val())
        },
{
    match FieldElement::<Stark252PrimeField>::from(&U256 { limbs: a.limbs }).sqrt() {
        Some((x, y)) => Some((
            LargeField { limbs: x.representative().limbs },
            LargeField { limbs: y.representative().limbs },
        )),
        None => None,
    }
}

/// Calls `FieldElement::<Stark252PrimeField>::value` on both elements and
/// compares the two results with `>`: `value` gives the Montgomery form
/// `v * 2^256 mod p` of the element `v`, and the comparison is numeric.
#[verifier::external_body]
fn fe_montgomery_gt(a: &LargeField, b: &LargeField) -> (r: bool)
    ensures
        r == (montgomery_form(a.val()) > montgomery_form(b.val())),
{
    let x = FieldElement::<Stark252PrimeField>::from(&U256 { limbs: a.limbs });
    let y = FieldElement::<Stark252PrimeField>::from(&U256 { limbs: b.limbs });
    x.value() > y.value()
}

/// Calls `FieldElement::<Stark252PrimeField>::to_bytes_be`: the 32
/// big-endian bytes of the canonical representative.
#[verifier::external_body]
fn fe_to_bytes_be(a: &LargeField) -> (r: LargeFieldSer)
    ensures
        be_nat(r@) == a.val(),
{
    FieldElement::<Stark252PrimeField>::from(&U256 { limbs: a.limbs }).to_bytes_be()
}

/// Calls `ByteConversion::from_bytes_be`, which fails only on fewer than 32
/// bytes: the element that the 32 bytes spell, reduced.
#[verifier::external_body]
fn fe_from_bytes_be(bytes: &LargeFieldSer) -> (r: Option<LargeField>)
    ensures
        r is Some,
        r->0.canonical(),
        r->0.val() == be_nat(bytes@) % modulus(),
{
    match FieldElement::<Stark252PrimeField>::from_bytes_be(bytes) {
        Ok(x) => Some(LargeField { limbs: x.representative().limbs }),
        Err(_) => None,
    }
}

/// The value at `x` of the polynomial with coefficients `cs`, lowest degree
/// first: `sum_i cs[i] * x^i` in the field.
pub open spec fn poly_eval(cs: Seq<nat>, x: nat) -> nat
    decreases cs.len(),
{
    if cs.len() == 0 {
        0
    } else {
        fadd(cs[0], fmul(x, poly_eval(cs.skip(1), x)))
    }
}

/// Calls `Polynomial::interpolate`: an error exactly when the lengths differ
/// or two points share their abscissa; else the coefficients, lowest degree
/// first, of the polynomial of degree below `xs.len()` through the points.
#[verifier::external_body]
fn fe_interpolate(xs: &Vec<LargeField>, ys: &Vec<LargeField>) -> (r: Option<Vec<LargeField>>)
    ensures
        r is None <==> (xs@.len() != ys@.len() || !distinct(vals(xs@))),
        r matches Some(cs) ==> {
            &&& cs@.len() <= xs@.len()
            &&& forall|i: int| 0 <= i < cs@.len() ==> (#[trigger] cs@[i]).canonical()
            &&& forall|i: int| 0 <= i < xs@.len() ==> poly_eval(vals(cs@), #[trigger] xs@[i].val()) == ys@[i].val()
            &&& poly_eval(vals(cs@), 0) == lagrange_at_zero(vals(xs@), vals(ys@))
        },
{
    let xs: Vec<FieldElement<Stark252PrimeField>> =
        xs.iter().map(|x| FieldElement::from(&U256 { limbs: x.limbs })).collect();
    let ys: Vec<FieldElement<Stark252PrimeField>> =
        ys.iter().map(|y| FieldElement::from(&U256 { limbs: y.limbs })).collect();
    match Polynomial::interpolate(&xs, &ys) {
        Ok(p) => Some(p.coefficients.iter().map(|c| LargeField { limbs: c.representative().limbs }).collect()),
        Err(_) => None,
    }
}

/// Calls `Polynomial::evaluate` on the polynomial with coefficients `cs`,
/// lowest degree first: its value at `x`.
#[verifier::external_body]
fn fe_evaluate(cs: &Vec<LargeField>, x: &LargeField) -> (r: LargeField)
    ensures
        r.canonical(),
        r.val() == poly_eval(vals(cs@), x.val()),
{
    let cs: Vec<FieldElement<Stark252PrimeField>> =
        cs.iter().map(|c| FieldElement::from(&U256 { limbs: c.limbs })).collect();
    let x = FieldElement::<Stark252PrimeField>::from(&U256 { limbs: x.limbs });
    LargeField { limbs: Polynomial::new(&cs).evaluate::<Stark252PrimeField>(&x).representative().limbs }
}

/// The coefficients, lowest degree first, of the polynomial of degree below
/// `xs.len()` through the points `(xs[i], ys[i])`; `None` when the lengths
/// differ or two abscissae are equal.
pub fn interpolate(xs: &Vec<LargeField>, ys: &Vec<LargeField>) -> (r: Option<Vec<LargeField>>)
    ensures
        r is None <==> (xs@.len() != ys@.len() || !distinct(vals(xs@))),
        r matches Some(cs) ==> {
            &&& cs@.len() <= xs@.len()
            &&& forall|i: int| 0 <= i < cs@.len() ==> (#[trigger] cs@[i]).canonical()
            &&& forall|i: int| 0 <= i < xs@.len() ==> poly_eval(vals(cs@), #[trigger] xs@[i].val()) == ys@[i].val()
            &&& poly_eval(vals(cs@), 0) == lagrange_at_zero(vals(xs@), vals(ys@))
        },
{
    fe_interpolate(xs, ys)
}

/// The value at `x` of the polynomial with coefficients `cs`, lowest degree first.
pub fn evaluate_polynomial(cs: &Vec<LargeField>, x: &LargeField) -> (r: LargeField)
    ensures
        r.canonical(),
        r.val() == poly_eval(vals(cs@), x.val()),
{
    fe_evaluate(cs, x)
}

impl LargeField {
    /// The element `x` of the field.
    pub fn from_u64(x: u64) -> (r: LargeField)
        ensures
            r.canonical(),
            r.val() == x as nat % modulus(),
    {
        fe_from_u64(x)
    }

    /// An element drawn at random.
    pub fn random() -> (r: LargeField)
        ensures
            r.canonical(),
    {
        fe_random()
    }

    /// The additive neutral element.
    pub fn zero() -> (r: LargeField)
        ensures
            r.canonical(),
            r.val() == 0,
    {
        fe_zero()
    }

    /// The multiplicative neutral element.
    pub fn one() -> (r: LargeField)
        ensures
            r.canonical(),
            r.val() == 1,
    {
        fe_one()
    }

    /// The sum of two field elements.
    pub fn add(&self, other: &LargeField) -> (r: LargeField)
        ensures
            r.canonical(),
            r.val() == fadd(self.val(), other.val()),
    {
        fe_add(self, other)
    }

    /// The difference of two field elements.
    pub fn sub(&self, other: &LargeField) -> (r: LargeField)
        ensures
            r.canonical(),
            r.val() == fsub(self.val(), other.val()),
    {
        fe_sub(self, other)
    }

    /// The product of two field elements.
    pub fn mul(&self, other: &LargeField) -> (r: LargeField)
        ensures
            r.canonical(),
            r.val() == fmul(self.val(), other.val()),
    {
        fe_mul(self, other)
    }

    /// The multiplicative inverse, `None` for zero.
    pub fn inv(&self) -> (r: Option<LargeField>)
        ensures
            r is None <==> self.val() == 0,
            r matches Some(w) ==> w.canonical() && w.val() == finv(self.val()) && fmul(
                self.val(),
                w.val(),
            ) == 1,
    {
        fe_inv(self)
    }

    /// Both square roots, `None` for a non-square.
    pub fn sqrt(&self) -> (r: Option<(LargeField, LargeField)>)
        ensures
            r is None <==> !is_square(self.val()),
            r matches Some(p) ==> {
                &&& p.0.canonical()
                &&& p.1.canonical()
                &&& p.0.val() == sqrt_root(self.val())
                &&& fmul(p.0.val(), p.0.val()) == self.val()
                &&& p.1.val() == fneg(p.0.val())
            },
    {
        fe_sqrt(self)
    }

    /// The big-endian serialization of the canonical representative.
    pub fn to_bytes_be(&self) -> (r: LargeFieldSer)
        ensures
            be_nat(r@) == self.val(),
    {
        fe_to_bytes_be(self)
    }

    /// Whether the Montgomery form `v * 2^256 mod p` of this element exceeds that of `other`.
    pub fn montgomery_gt(&self, other: &LargeField) -> (r: bool)
        ensures
            r == (montgomery_form(self.val()) > montgomery_form(other.val())),
    {
        fe_montgomery_gt(self, other)
    }

    /// The element that 32 big-endian bytes spell, reduced into the field.
    pub fn from_bytes_be(bytes: &LargeFieldSer) -> (r: LargeField)
        ensures
            r.canonical(),
            r.val() == be_nat(bytes@) % modulus(),
    {
        match fe_from_bytes_be(bytes) {
            Some(x) => x,
            None => LargeField::zero(),
        }
    }
}

} // verus!
