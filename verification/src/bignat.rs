//! Natural numbers of any size, for exact comparisons of squares and products.

use vstd::prelude::*;

verus! {

/// The base of the limbs.
pub const BASE: u128 = 0x1_0000_0000_0000_0000;

/// The number that limbs stand for, the lowest first.
pub open spec fn value_of(limbs: Seq<u64>) -> nat
    decreases limbs.len(),
{
    if limbs.len() == 0 {
        0
    } else {
        (limbs[0] + BASE * value_of(limbs.drop_first())) as nat
    }
}

/// A natural number.
#[derive(Debug, Clone, PartialEq, Eq)]
pub struct BigNat {
    limbs: Vec<u64>,
}

/// How two numbers stand to each other.
#[derive(Debug, Clone, Copy, PartialEq, Eq, Structural)]
enum Relation {
    Less,
    Equal,
    Greater,
}

spec fn relation(a: int, b: int) -> Relation {
    if a < b {
        Relation::Less
    } else if a == b {
        Relation::Equal
    } else {
        Relation::Greater
    }
}

proof fn value_of_prepend(x: u64, rest: Seq<u64>)
    ensures
        value_of(rest.insert(0, x)) == x + BASE * value_of(rest),
{
    assert(rest.insert(0, x).drop_first() =~= rest);
}

proof fn value_of_skip(limbs: Seq<u64>, i: int)
    requires
        0 <= i < limbs.len(),
    ensures
        value_of(limbs.skip(i)) == limbs[i] + BASE * value_of(limbs.skip(i + 1)),
{
    assert(limbs.skip(i).drop_first() =~= limbs.skip(i + 1));
}

/// The limbs of `limbs[i..]` times `k` plus `carry`.
fn times_plus(limbs: &Vec<u64>, i: usize, k: u64, carry: u64) -> (r: Vec<u64>)
    requires
        i <= limbs.len(),
    ensures
        value_of(r@) == value_of(limbs@.skip(i as int)) * k + carry,
    decreases limbs.len() - i,
{
    if i == limbs.len() {
        let mut r: Vec<u64> = Vec::new();
        r.push(carry);
        proof {
            assert(r@.drop_first() =~= Seq::empty());
            assert(value_of(r@.drop_first()) == 0);
            assert(value_of(limbs@.skip(i as int)) * k == 0) by (nonlinear_arith)
                requires
                    value_of(limbs@.skip(i as int)) == 0,
            ;
        }
        r
    } else {
        let x: u64 = limbs[i];
        assert(x * k + carry < BASE * BASE) by (nonlinear_arith)
            requires
                x < BASE,
                k < BASE,
                carry < BASE,
                BASE == 0x1_0000_0000_0000_0000,
        ;
        assert(x * k <= u128::MAX) by (nonlinear_arith)
            requires
                x < BASE,
                k < BASE,
                BASE == 0x1_0000_0000_0000_0000,
        ;
        let p: u128 = x as u128 * k as u128 + carry as u128;
        let low: u64 = (p % BASE) as u64;
        let high: u64 = (p / BASE) as u64;
        let mut r = times_plus(limbs, i + 1, k, high);
        proof {
            let rest = value_of(limbs@.skip(i + 1));
            value_of_skip(limbs@, i as int);
            value_of_prepend(low, r@);
            assert(low + BASE * (rest * k + high) == (x + BASE * rest) * k + carry) by (nonlinear_arith)
                requires
                    low + BASE * high == x * k + carry,
            ;
        }
        r.insert(0, low);
        r
    }
}

/// The limbs of `a[i..]` plus `b[i..]` plus `carry`.
fn plus_from(a: &Vec<u64>, b: &Vec<u64>, i: usize, carry: u64) -> (r: Vec<u64>)
    requires
        i <= a.len(),
        i <= b.len(),
        carry <= 1,
    ensures
        value_of(r@) == value_of(a@.skip(i as int)) + value_of(b@.skip(i as int)) + carry,
    decreases a.len() - i,
{
    if i == a.len() {
        let r = times_plus(b, i, 1, carry);
        assert(value_of(b@.skip(i as int)) * 1 == value_of(b@.skip(i as int)));
        r
    } else if i == b.len() {
        let r = times_plus(a, i, 1, carry);
        assert(value_of(a@.skip(i as int)) * 1 == value_of(a@.skip(i as int)));
        r
    } else {
        let s: u128 = a[i] as u128 + b[i] as u128 + carry as u128;
        let (low, high): (u64, u64) = if s < BASE {
            (s as u64, 0)
        } else {
            ((s - BASE) as u64, 1)
        };
        let mut r = plus_from(a, b, i + 1, high);
        proof {
            value_of_skip(a@, i as int);
            value_of_skip(b@, i as int);
            value_of_prepend(low, r@);
            let p = value_of(a@.skip(i + 1)) as int;
            let q = value_of(b@.skip(i + 1)) as int;
            assert(BASE * (p + q + high) == BASE * p + BASE * q + BASE * high) by (nonlinear_arith);
        }
        r.insert(0, low);
        r
    }
}

/// How `a[i..]` stands to `b[i..]`.
fn relation_from(a: &Vec<u64>, b: &Vec<u64>, i: usize) -> (r: Relation)
    requires
        i <= a.len() || i <= b.len(),
    ensures
        r == relation(
            (if i <= a.len() { value_of(a@.skip(i as int)) } else { 0 }) as int,
            (if i <= b.len() { value_of(b@.skip(i as int)) } else { 0 }) as int,
        ),
    decreases a.len() + b.len() - i,
{
    if i >= a.len() && i >= b.len() {
        return Relation::Equal;
    }
    let x: u64 = if i < a.len() { a[i] } else { 0 };
    let y: u64 = if i < b.len() { b[i] } else { 0 };
    let high = relation_from(a, b, i + 1);
    proof {
        let p = (if i + 1 <= a.len() { value_of(a@.skip(i + 1)) } else { 0 }) as int;
        let q = (if i + 1 <= b.len() { value_of(b@.skip(i + 1)) } else { 0 }) as int;
        if i < a.len() {
            value_of_skip(a@, i as int);
        }
        if i < b.len() {
            value_of_skip(b@, i as int);
        }
        assert(p < q ==> x + BASE * p < y + BASE * q) by (nonlinear_arith)
            requires
                x < BASE,
                0 <= y,
        ;
        assert(q < p ==> y + BASE * q < x + BASE * p) by (nonlinear_arith)
            requires
                y < BASE,
                0 <= x,
        ;
    }
    match high {
        Relation::Equal => if x < y {
            Relation::Less
        } else if x == y {
            Relation::Equal
        } else {
            Relation::Greater
        },
        Relation::Less => Relation::Less,
        Relation::Greater => Relation::Greater,
    }
}

impl BigNat {
    /// The number.
    pub closed spec fn view(&self) -> nat {
        value_of(self.limbs@)
    }

    /// Zero.
    pub fn zero() -> (r: Self)
        ensures
            r@ == 0,
    {
        BigNat { limbs: Vec::new() }
    }

    /// The number `x`.
    pub fn of(x: u128) -> (r: Self)
        ensures
            r@ == x,
    {
        let mut limbs: Vec<u64> = Vec::new();
        limbs.push((x % BASE) as u64);
        limbs.push((x / BASE) as u64);
        proof {
            let l = limbs@;
            assert(l.drop_first().drop_first() =~= Seq::empty());
            assert(value_of(l.drop_first().drop_first()) == 0);
            assert(value_of(l.drop_first()) == l[1]);
            assert(value_of(l) == l[0] + BASE * l[1]);
        }
        BigNat { limbs }
    }

    /// The product with `k`.
    pub fn times(&self, k: u64) -> (r: Self)
        ensures
            r@ == self@ * k,
    {
        assert(self.limbs@.skip(0) =~= self.limbs@);
        BigNat { limbs: times_plus(&self.limbs, 0, k, 0) }
    }

    /// The sum with `other`.
    pub fn plus(&self, other: &BigNat) -> (r: Self)
        ensures
            r@ == self@ + other@,
    {
        assert(self.limbs@.skip(0) =~= self.limbs@);
        assert(other.limbs@.skip(0) =~= other.limbs@);
        BigNat { limbs: plus_from(&self.limbs, &other.limbs, 0, 0) }
    }

    /// Whether the number is larger than `other`.
    pub fn exceeds(&self, other: &BigNat) -> (r: bool)
        ensures
            r == (self@ > other@),
    {
        assert(self.limbs@.skip(0) =~= self.limbs@);
        assert(other.limbs@.skip(0) =~= other.limbs@);
        match relation_from(&self.limbs, &other.limbs, 0) {
            Relation::Greater => true,
            _ => false,
        }
    }
}

} // verus!
