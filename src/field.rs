//! Residues modulo a prime: construction, the ring operations and powers.
use vstd::arithmetic::div_mod::{
    lemma_mod_add_multiples_vanish, lemma_mod_self_0, lemma_mod_twice, lemma_mul_mod_noop_general,
    lemma_small_mod,
};
use vstd::arithmetic::power::{lemma_pow0, lemma_pow1, lemma_pow_adds, lemma_pow_mod_noop, pow};
use crate::decimal::{decimal, push_decimal};
use vstd::prelude::*;

verus! {

/// `a + b` in the field modulo `p`.
pub open spec fn field_add(a: int, b: int, p: int) -> int {
    (a + b) % p
}

/// `a - b` in the field modulo `p` (`%` is Euclidean, so the result is never negative).
pub open spec fn field_sub(a: int, b: int, p: int) -> int {
    (a - b) % p
}

/// `a · b` in the field modulo `p`.
pub open spec fn field_mul(a: int, b: int, p: int) -> int {
    (a * b) % p
}

/// `a` raised to the power `e` in the field modulo `p`.
pub open spec fn field_pow(a: int, e: nat, p: int) -> int {
    pow(a, e) % p
}

/// An element of the field of integers modulo `prime`.
///
/// The modulus `prime` is greater than 1 and the residue `num` lies in
/// `0 .. prime`. Primality of `prime` is not checked.
#[derive(Clone, Copy, Debug, PartialEq, Eq, Structural)]
pub struct FieldElement {
    num: u32,
    prime: u32,
}

impl FieldElement {
    #[verifier::type_invariant]
    spec fn in_range(self) -> bool {
        self.num < self.prime && self.prime > 1
    }

    /// The residue, as contracts see it.
    pub closed spec fn spec_num(&self) -> u32 {
        self.num
    }

    /// The modulus, as contracts see it.
    pub closed spec fn spec_prime(&self) -> u32 {
        self.prime
    }

    /// The residue held by this element.
    #[verifier::when_used_as_spec(spec_num)]
    pub fn num(&self) -> (r: u32)
        ensures
            r == self.spec_num(),
            r < self.spec_prime(),
    {
        proof {
            use_type_invariant(self);
        }
        self.num
    }

    /// The modulus of the field this element belongs to.
    #[verifier::when_used_as_spec(spec_prime)]
    pub fn prime(&self) -> (r: u32)
        ensures
            r == self.spec_prime(),
            self.spec_num() < r,
            r > 1,
    {
        proof {
            use_type_invariant(self);
        }
        self.prime
    }

    /// Builds the element `num` of the field modulo `prime`.
    ///
    /// A modulus below 2 is refused, and so is a value outside `0 .. prime`,
    /// rather than reduced.
    pub fn new(num: u32, prime: u32) -> (r: Result<FieldElement, &'static str>)
        ensures
            match r {
                Ok(e) => prime > 1 && num < prime && e.num() == num && e.prime() == prime,
                Err(msg) => if prime <= 1 {
                    msg == "prime must be greater than 1"
                } else {
                    num >= prime && msg == "num is not in field range"
                },
            },
    {
        if prime <= 1 {
            Err("prime must be greater than 1")
        } else if num >= prime {
            Err("num is not in field range")
        } else {
            Ok(FieldElement { num, prime })
        }
    }
}

impl FieldElement {
    /// The sum of two elements of one field.
    pub fn add(self, other: FieldElement) -> (r: FieldElement)
        requires
            self.prime() == other.prime(),
        ensures
            r.prime() == self.prime(),
            r.num() == field_add(self.num() as int, other.num() as int, self.prime() as int),
            r.num() < r.prime(),
    {
        proof {
            use_type_invariant(&self);
            use_type_invariant(&other);
        }
        let num = ((self.num as u64 + other.num as u64) % self.prime as u64) as u32;
        FieldElement { num, prime: self.prime }
    }

    /// The difference of two elements of one field, taken modulo the prime.
    pub fn sub(self, other: FieldElement) -> (r: FieldElement)
        requires
            self.prime() == other.prime(),
        ensures
            r.prime() == self.prime(),
            r.num() == field_sub(self.num() as int, other.num() as int, self.prime() as int),
            r.num() < r.prime(),
    {
        proof {
            use_type_invariant(&self);
            use_type_invariant(&other);
        }
        let p = self.prime;
        let num = if self.num >= other.num {
            self.num - other.num
        } else {
            p - (other.num - self.num)
        };
        proof {
            let d = self.num as int - other.num as int;
            if d >= 0 {
                lemma_small_mod(d as nat, p as nat);
            } else {
                lemma_small_mod((d + p) as nat, p as nat);
                lemma_mod_add_multiples_vanish(d, p as int);
            }
        }
        FieldElement { num, prime: p }
    }

    /// The product of two elements of one field.
    pub fn mul(self, other: FieldElement) -> (r: FieldElement)
        requires
            self.prime() == other.prime(),
        ensures
            r.prime() == self.prime(),
            r.num() == field_mul(self.num() as int, other.num() as int, self.prime() as int),
            r.num() < r.prime(),
    {
        proof {
            use_type_invariant(&self);
            use_type_invariant(&other);
            assert(self.num as u64 * other.num as u64 <= u64::MAX) by (nonlinear_arith)
                requires
                    self.num < 0x1_0000_0000u64,
                    other.num < 0x1_0000_0000u64,
            ;
        }
        let num = ((self.num as u64 * other.num as u64) % self.prime as u64) as u32;
        FieldElement { num, prime: self.prime }
    }
}

/// One step of square-and-multiply: halving the exponent while squaring the
/// base keeps `r · bᵉ` unchanged modulo `p`, once the odd factor is moved into `r`.
proof fn lemma_square_step(r: int, b: int, e: nat, p: int)
    requires
        p > 0,
    ensures
        e % 2 == 0 ==> (r * pow((b * b) % p, e / 2)) % p == (r * pow(b, e)) % p,
        e % 2 == 1 ==> (((r * b) % p) * pow((b * b) % p, e / 2)) % p == (r * pow(b, e)) % p,
{
    let k = e / 2;
    lemma_pow_mod_noop(b * b, k, p);
    lemma_square_pow(b, k);
    if e % 2 == 0 {
        assert(e == k + k);
        lemma_mul_mod_noop_general(r, pow((b * b) % p, k), p);
        lemma_mul_mod_noop_general(r, pow(b * b, k), p);
    } else {
        assert(e == k + k + 1);
        lemma_pow_adds(b, 1, k + k);
        lemma_pow1(b);
        lemma_mul_mod_noop_general(r * b, pow((b * b) % p, k), p);
        lemma_mul_mod_noop_general(r * b, pow(b * b, k), p);
        assert(r * (b * pow(b, k + k)) == (r * b) * pow(b, k + k)) by (nonlinear_arith);
    }
}

/// `(b²)ᵏ == b²ᵏ`.
proof fn lemma_square_pow(b: int, k: nat)
    ensures
        pow(b * b, k) == pow(b, k + k),
    decreases k,
{
    if k == 0 {
        lemma_pow0(b * b);
        lemma_pow0(b);
    } else {
        lemma_square_pow(b, (k - 1) as nat);
        let j = (k - 1) as nat;
        lemma_pow_adds(b * b, 1, j);
        lemma_pow1(b * b);
        lemma_pow_adds(b, 2, j + j);
        lemma_pow_adds(b, 1, 1);
        lemma_pow1(b);
        assert(k + k == 2 + (j + j));
    }
}

/// Two elements with the same residue and the same modulus are equal.
pub proof fn lemma_field_element_ext(e: FieldElement, f: FieldElement)
    requires
        e.spec_num() == f.spec_num(),
        e.spec_prime() == f.spec_prime(),
    ensures
        e == f,
{
}

/// Zero is an identity of field addition: `v + 0 == v`.
pub proof fn lemma_additive_identity(v: int, p: int)
    requires
        0 <= v < p,
    ensures
        field_add(v, 0, p) == v,
{
    lemma_small_mod(v as nat, p as nat);
}

/// Every element has an additive inverse: some `w` in the field with `v + w == 0`.
pub proof fn lemma_additive_inverse(v: int, p: int)
    requires
        0 <= v < p,
    ensures
        exists|w: int| 0 <= w < p && #[trigger] field_add(v, w, p) == 0,
{
    let w = if v == 0 { 0 } else { p - v };
    if v == 0 {
        lemma_small_mod(0, p as nat);
    } else {
        lemma_mod_self_0(p);
    }
    assert(field_add(v, w, p) == 0);
}

impl FieldElement {
    /// This element raised to the power `exponent`, by repeated squaring.
    pub fn pow(self, exponent: u32) -> (r: FieldElement)
        ensures
            r.prime() == self.prime(),
            r.num() == field_pow(self.num() as int, exponent as nat, self.prime() as int),
            r.num() < r.prime(),
    {
        proof {
            use_type_invariant(&self);
        }
        let p = self.prime as u64;
        let mut result: u64 = 1 % p;
        let mut base: u64 = self.num as u64;
        let mut e: u32 = exponent;
        proof {
            lemma_pow0(base as int);
            lemma_small_mod(base as nat, p as nat);
            lemma_mod_twice(1, p as int);
            lemma_mul_mod_noop_general(1, pow(self.num as int, exponent as nat), p as int);
        }
        while e > 0
            invariant
                p == self.prime,
                p > 0,
                result < p,
                base < p,
                (result * pow(base as int, e as nat)) % (p as int)
                    == pow(self.num as int, exponent as nat) % (p as int),
            decreases e,
        {
            proof {
                lemma_square_step(result as int, base as int, e as nat, p as int);
                assert(base * base < 0x1_0000_0000_0000_0000) by (nonlinear_arith)
                    requires
                        base < p,
                        p < 0x1_0000_0000,
                ;
                assert(result * base < 0x1_0000_0000_0000_0000) by (nonlinear_arith)
                    requires
                        result < p,
                        base < p,
                        p < 0x1_0000_0000,
                ;
            }
            if e % 2 == 1 {
                result = (result * base) % p;
            }
            base = (base * base) % p;
            e = e / 2;
        }
        proof {
            lemma_pow0(base as int);
            lemma_small_mod(result as nat, p as nat);
        }
        FieldElement { num: result as u32, prime: self.prime }
    }
}

impl FieldElement {
    /// The text `FieldElement_<prime>(<num>)`, both numbers in decimal.
    pub fn represent(&self) -> (r: String)
        ensures
            r@ == "FieldElement_"@ + decimal(self.prime() as nat) + "("@ + decimal(
                self.num() as nat,
            ) + ")"@,
    {
        let mut r = String::new();
        r.append("FieldElement_");
        push_decimal(&mut r, self.prime);
        r.append("(");
        push_decimal(&mut r, self.num);
        r.append(")");
        r
    }
}

} // verus!
