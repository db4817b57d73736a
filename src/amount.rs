use vstd::prelude::*;

verus! {

/// The radix of an amount's digits.
pub open spec fn radix() -> int {
    0x1_0000_0000_0000_0000
}

/// The digit at position `i`, zero beyond the last stored digit.
pub open spec fn digit_at(s: Seq<u64>, i: int) -> int {
    if 0 <= i < s.len() {
        s[i] as int
    } else {
        0
    }
}

/// The value of the digits from position `i` upwards, least significant first.
pub open spec fn value_from(s: Seq<u64>, i: nat) -> nat
    decreases s.len() - i,
{
    if i >= s.len() {
        0
    } else {
        (s[i as int] as nat) + (radix() as nat) * value_from(s, i + 1)
    }
}

/// A non-negative integer of any size, as base-2^64 digits, least significant first.
/// Leading zero digits are allowed and do not change the value.
pub struct Amount {
    pub digits: Vec<u64>,
}

impl Amount {
    pub open spec fn value(&self) -> nat {
        value_from(self.digits@, 0)
    }

    pub fn zero() -> (r: Amount)
        ensures
            r.value() == 0,
    {
        Amount { digits: Vec::new() }
    }

    pub fn from_u64(n: u64) -> (r: Amount)
        ensures
            r.value() == n,
    {
        let mut digits: Vec<u64> = Vec::new();
        digits.push(n);
        let r = Amount { digits };
        proof {
            assert(r.digits@[0] == n);
            assert(value_from(r.digits@, 1) == 0);
            assert(value_from(r.digits@, 0) == n + radix() * 0);
        }
        r
    }

    pub fn copy(&self) -> (r: Amount)
        ensures
            r.digits@ == self.digits@,
            r.value() == self.value(),
    {
        Amount { digits: self.digits.clone() }
    }

    /// Whether `self` is at least `other`.
    pub fn ge(&self, other: &Amount) -> (r: bool)
        ensures
            r == (self.value() >= other.value()),
    {
        let a = &self.digits;
        let b = &other.digits;
        let mut i: usize = if a.len() >= b.len() { a.len() } else { b.len() };
        // -1, 0 or 1: how the digits from position i upwards compare
        let mut ord: i8 = 0;
        while i > 0
            invariant
                i <= a.len() || i <= b.len(),
                ord == 0 ==> value_from(a@, i as nat) == value_from(b@, i as nat),
                ord == 1 ==> value_from(a@, i as nat) > value_from(b@, i as nat),
                ord == -1 ==> value_from(a@, i as nat) < value_from(b@, i as nat),
                ord == 0 || ord == 1 || ord == -1,
            decreases i,
        {
            i = i - 1;
            let da: u64 = if i < a.len() { a[i] } else { 0 };
            let db: u64 = if i < b.len() { b[i] } else { 0 };
            proof {
                lemma_value_step(a@, i as nat);
                lemma_value_step(b@, i as nat);
                lemma_digit_order(
                    da as int,
                    db as int,
                    value_from(a@, (i + 1) as nat) as int,
                    value_from(b@, (i + 1) as nat) as int,
                );
            }
            if ord == 0 {
                if da > db {
                    ord = 1;
                } else if da < db {
                    ord = -1;
                }
            }
        }
        ord >= 0
    }

    /// Whether the value is zero.
    pub fn is_zero(&self) -> (r: bool)
        ensures
            r == (self.value() == 0),
    {
        let z = Amount::zero();
        z.ge(self)
    }
}

/// One step down the digits: the value from `i` is the digit at `i` plus the radix
/// times the value from `i + 1`.
proof fn lemma_value_step(s: Seq<u64>, i: nat)
    ensures
        value_from(s, i) == digit_at(s, i as int) + radix() * value_from(s, i + 1),
{
    if i >= s.len() {
        assert(value_from(s, i + 1) == 0);
    }
}

/// Comparing `da + radix * va` with `db + radix * vb`: the upper part decides unless it
/// is equal, then the digit decides.
proof fn lemma_digit_order(da: int, db: int, va: int, vb: int)
    requires
        0 <= da < radix(),
        0 <= db < radix(),
        0 <= va,
        0 <= vb,
    ensures
        va > vb ==> da + radix() * va > db + radix() * vb,
        va < vb ==> da + radix() * va < db + radix() * vb,
        va == vb ==> (da + radix() * va > db + radix() * vb <==> da > db),
        va == vb ==> (da + radix() * va < db + radix() * vb <==> da < db),
{
    let r = radix();
    if va > vb {
        assert(r * va >= r * vb + r) by (nonlinear_arith)
            requires
                va >= vb + 1,
                r > 0,
        ;
    }
    if va < vb {
        assert(r * vb >= r * va + r) by (nonlinear_arith)
            requires
                vb >= va + 1,
                r > 0,
        ;
    }
}

} // verus!
