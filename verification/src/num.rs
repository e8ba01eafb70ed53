//! Arbitrary-precision unsigned and signed integers over base-256 limbs.
//!
//! On-chain amounts are 256-bit words and ledger balances are running sums of
//! signed deltas, so neither fits a machine integer. Values are held as
//! little-endian byte limbs; every contract speaks of the mathematical value.

use vstd::prelude::*;

verus! {

/// 256 raised to `n`: the weight of the limb at position `n`.
pub open spec fn pow256(n: nat) -> nat
    decreases n,
{
    if n == 0 {
        1
    } else {
        256 * pow256((n - 1) as nat)
    }
}

/// The value of a little-endian limb string: limb `i` weighs `pow256(i)`.
pub open spec fn le_value(s: Seq<u8>) -> nat
    decreases s.len(),
{
    if s.len() == 0 {
        0
    } else {
        le_value(s.drop_last()) + (s.last() as nat) * pow256((s.len() - 1) as nat)
    }
}

/// The value of a big-endian byte string: the first byte is most significant.
pub open spec fn be_value(s: Seq<u8>) -> nat
    decreases s.len(),
{
    if s.len() == 0 {
        0
    } else {
        (s[0] as nat) * pow256((s.len() - 1) as nat) + be_value(s.drop_first())
    }
}

pub proof fn lemma_pow256_pos(n: nat)
    ensures
        pow256(n) >= 1,
    decreases n,
{
    if n > 0 {
        lemma_pow256_pos((n - 1) as nat);
    }
}

pub proof fn lemma_pow256_add(a: nat, b: nat)
    ensures
        pow256(a + b) == pow256(a) * pow256(b),
    decreases a,
{
    if a == 0 {
        assert(pow256(0 + b) == 1 * pow256(b)) by {
            assert(0 + b == b);
        }
    } else {
        lemma_pow256_add((a - 1) as nat, b);
        assert((a - 1) as nat + b == (a + b - 1) as nat);
        assert(pow256(a + b) == 256 * pow256((a + b - 1) as nat));
        assert(256 * (pow256((a - 1) as nat) * pow256(b)) == (256 * pow256((a - 1) as nat))
            * pow256(b)) by (nonlinear_arith);
    }
}

/// Appending a limb adds its weighted value.
pub proof fn lemma_le_value_push(s: Seq<u8>, d: u8)
    ensures
        le_value(s.push(d)) == le_value(s) + (d as nat) * pow256(s.len()),
{
    let t = s.push(d);
    assert(t.drop_last() =~= s);
    assert(t.last() == d);
}

/// Dropping a zero top limb keeps the value.
pub proof fn lemma_le_value_drop_zero(s: Seq<u8>)
    requires
        s.len() > 0,
        s.last() == 0,
    ensures
        le_value(s) == le_value(s.drop_last()),
{
}

/// A limb string of length `n` denotes a value below `pow256(n)`.
pub proof fn lemma_le_value_bound(s: Seq<u8>)
    ensures
        le_value(s) < pow256(s.len()),
    decreases s.len(),
{
    if s.len() == 0 {
    } else {
        let n = (s.len() - 1) as nat;
        lemma_le_value_bound(s.drop_last());
        assert((s.last() as nat) * pow256(n) <= 255 * pow256(n)) by (nonlinear_arith)
            requires
                s.last() as nat <= 255,
                pow256(n) >= 0,
        ;
        assert(le_value(s) <= pow256(n) - 1 + 255 * pow256(n));
        assert(pow256(n) + 255 * pow256(n) == 256 * pow256(n)) by (nonlinear_arith);
        assert(pow256(s.len()) == 256 * pow256(n));
    }
}

/// A limb string splits at any point into a low part and a weighted high part.
pub proof fn lemma_le_value_split(s: Seq<u8>, k: int)
    requires
        0 <= k <= s.len(),
    ensures
        le_value(s) == le_value(s.take(k)) + pow256(k as nat) * le_value(s.skip(k)),
    decreases s.len(),
{
    if k == s.len() {
        assert(s.take(k) =~= s);
        assert(s.skip(k) =~= Seq::<u8>::empty());
        assert(pow256(k as nat) * 0 == 0) by (nonlinear_arith);
    } else {
        let n = s.len() - 1;
        let dl = s.drop_last();
        lemma_le_value_split(dl, k);
        assert(dl.take(k) =~= s.take(k));
        let sk = s.skip(k);
        assert(sk.drop_last() =~= dl.skip(k));
        assert(sk.last() == s.last());
        assert(le_value(sk) == le_value(dl.skip(k)) + (s.last() as nat) * pow256((n - k) as nat));
        lemma_pow256_add(k as nat, (n - k) as nat);
        assert(pow256(k as nat) * pow256((n - k) as nat) == pow256(n as nat));
        assert(pow256(k as nat) * le_value(sk) == pow256(k as nat) * le_value(dl.skip(k)) + (
        s.last() as nat) * (pow256(k as nat) * pow256((n - k) as nat))) by (nonlinear_arith)
            requires
                le_value(sk) == le_value(dl.skip(k)) + (s.last() as nat) * pow256((n - k) as nat),
        ;
    }
}

/// A limb string decomposes around position `i`: low part, the limb at `i`,
/// and the part above it.
pub proof fn lemma_le_value_decompose(s: Seq<u8>, i: int)
    requires
        0 <= i < s.len(),
    ensures
        le_value(s) == le_value(s.take(i)) + (s[i] as nat) * pow256(i as nat) + pow256(
            (i + 1) as nat,
        ) * le_value(s.skip(i + 1)),
{
    lemma_le_value_split(s, i);
    let sk = s.skip(i);
    lemma_le_value_split(sk, 1);
    let one = sk.take(1);
    assert(one.len() == 1);
    assert(one.drop_last() =~= Seq::<u8>::empty());
    assert(one.last() == s[i]);
    assert(le_value(Seq::<u8>::empty()) == 0);
    assert(le_value(one) == 0 + (s[i] as nat) * pow256(0));
    assert(sk.skip(1) =~= s.skip(i + 1));
    assert(pow256(1) == 256);
    let p = pow256(i as nat);
    assert(pow256((i + 1) as nat) == 256 * p);
    assert(p * le_value(sk) == p * ((s[i] as nat) * 1 + 256 * le_value(s.skip(i + 1))))
        by (nonlinear_arith)
        requires
            le_value(sk) == (s[i] as nat) * 1 + 256 * le_value(s.skip(i + 1)),
    ;
    assert(p * ((s[i] as nat) * 1 + 256 * le_value(s.skip(i + 1))) == (s[i] as nat) * p + (256 * p)
        * le_value(s.skip(i + 1))) by (nonlinear_arith);
}

/// If two equally long limb strings agree above position `j` and differ at it,
/// the one with the larger limb denotes the larger value.
pub proof fn lemma_le_value_orders(a: Seq<u8>, b: Seq<u8>, j: int)
    requires
        a.len() == b.len(),
        0 <= j < a.len(),
        a[j] > b[j],
        forall|k: int| j < k < a.len() ==> a[k] == b[k],
    ensures
        le_value(a) > le_value(b),
{
    lemma_le_value_decompose(a, j);
    lemma_le_value_decompose(b, j);
    assert(a.skip(j + 1) =~= b.skip(j + 1));
    lemma_le_value_bound(a.take(j));
    lemma_le_value_bound(b.take(j));
    assert(a.take(j).len() == j);
    assert(b.take(j).len() == j);
    let p = pow256(j as nat);
    assert((a[j] as nat) * p >= (b[j] as nat) * p + p) by (nonlinear_arith)
        requires
            a[j] as nat >= b[j] as nat + 1,
            p >= 0,
    ;
}

/// A limb string denotes zero exactly when every limb is zero.
pub proof fn lemma_le_value_zero(s: Seq<u8>)
    ensures
        (le_value(s) == 0) <==> (forall|i: int| 0 <= i < s.len() ==> s[i] == 0),
    decreases s.len(),
{
    if s.len() == 0 {
    } else {
        let n = (s.len() - 1) as nat;
        let dl = s.drop_last();
        lemma_le_value_zero(dl);
        lemma_pow256_pos(n);
        if s.last() != 0 {
            assert((s.last() as nat) * pow256(n) >= pow256(n)) by (nonlinear_arith)
                requires
                    s.last() as nat >= 1,
                    pow256(n) >= 1,
            ;
        } else {
            assert((s.last() as nat) * pow256(n) == 0) by (nonlinear_arith)
                requires
                    s.last() as nat == 0,
            ;
        }
        assert(forall|i: int| 0 <= i < dl.len() ==> dl[i] == s[i]);
        if le_value(s) == 0 {
            assert(le_value(dl) == 0);
            assert(forall|i: int| 0 <= i < s.len() ==> s[i] == 0);
        }
        if forall|i: int| 0 <= i < s.len() ==> s[i] == 0 {
            assert(le_value(dl) == 0);
        }
    }
}

/// How two values stand to one another.
pub enum Relation {
    Less,
    Equal,
    Greater,
}

/// An unbounded non-negative integer: little-endian base-256 limbs.
/// Trailing zero limbs are allowed; the view is the denoted value.
pub struct Amount {
    limbs: Vec<u8>,
}

impl View for Amount {
    type V = nat;

    closed spec fn view(&self) -> nat {
        le_value(self.limbs@)
    }
}

impl Amount {
    pub fn zero() -> (r: Amount)
        ensures
            r@ == 0,
    {
        Amount { limbs: Vec::new() }
    }

    pub fn from_u64(x: u64) -> (r: Amount)
        ensures
            r@ == x as nat,
    {
        let mut limbs: Vec<u8> = Vec::new();
        let mut rest: u64 = x;
        proof {
            assert(limbs@.len() == 0);
            assert(le_value(limbs@) == 0);
            assert(pow256(0) == 1);
            assert((x as nat) * 1 == x as nat) by (nonlinear_arith);
        }
        while rest > 0
            invariant
                le_value(limbs@) + (rest as nat) * pow256(limbs@.len()) == x as nat,
            decreases rest,
        {
            let d: u8 = (rest % 256) as u8;
            let i = limbs.len();
            proof {
                lemma_le_value_push(limbs@, d);
                assert((rest as nat) * pow256(i as nat) == (d as nat) * pow256(i as nat) + ((rest
                    / 256) as nat) * pow256((i + 1) as nat)) by (nonlinear_arith)
                    requires
                        rest as nat == d as nat + 256 * ((rest / 256) as nat),
                        pow256((i + 1) as nat) == 256 * pow256(i as nat),
                ;
            }
            limbs.push(d);
            rest = rest / 256;
        }
        proof {
            assert((0 as nat) * pow256(limbs@.len()) == 0) by (nonlinear_arith);
        }
        Amount { limbs }
    }

    /// Reads a big-endian byte string, as on-chain words are laid out.
    pub fn from_be_bytes(b: &[u8]) -> (r: Amount)
        ensures
            r@ == be_value(b@),
    {
        let n = b.len();
        let mut limbs: Vec<u8> = Vec::new();
        let mut i: usize = 0;
        while i < n
            invariant
                i <= n,
                n == b@.len(),
                limbs@.len() == i,
                le_value(limbs@) == be_value(b@.skip(n - i)),
            decreases n - i,
        {
            let d = b[n - 1 - i];
            proof {
                lemma_le_value_push(limbs@, d);
                let hi = b@.skip(n - i - 1);
                assert(hi.drop_first() =~= b@.skip(n - i));
                assert(hi[0] == d);
                assert(be_value(hi) == (d as nat) * pow256(i as nat) + be_value(b@.skip(n - i)));
            }
            limbs.push(d);
            i = i + 1;
        }
        proof {
            assert(b@.skip(0) =~= b@);
        }
        Amount { limbs }
    }

    /// The limbs, extended with zero limbs to length `n`: the value is kept.
    fn padded_limbs(&self, n: usize) -> (r: Vec<u8>)
        requires
            self.limbs@.len() <= n,
        ensures
            r@.len() == n,
            le_value(r@) == self@,
    {
        let mut r: Vec<u8> = Vec::new();
        let mut i: usize = 0;
        let len = self.limbs.len();
        while i < len
            invariant
                i <= len,
                len == self.limbs@.len(),
                r@ =~= self.limbs@.take(i as int),
            decreases len - i,
        {
            r.push(self.limbs[i]);
            i = i + 1;
        }
        proof {
            assert(self.limbs@.take(len as int) =~= self.limbs@);
        }
        while r.len() < n
            invariant
                r@.len() <= n,
                le_value(r@) == self@,
            decreases n - r@.len(),
        {
            proof {
                lemma_le_value_push(r@, 0);
                assert((0 as nat) * pow256(r@.len()) == 0) by (nonlinear_arith);
            }
            r.push(0);
        }
        r
    }

    pub fn add(&self, other: &Amount) -> (r: Amount)
        ensures
            r@ == self@ + other@,
    {
        let n = if self.limbs.len() < other.limbs.len() {
            other.limbs.len()
        } else {
            self.limbs.len()
        };
        let pa = self.padded_limbs(n);
        let pb = other.padded_limbs(n);
        let mut limbs: Vec<u8> = Vec::new();
        let mut carry: u8 = 0;
        let mut i: usize = 0;
        while i < n
            invariant
                i <= n,
                pa@.len() == n,
                pb@.len() == n,
                le_value(pa@) == self@,
                le_value(pb@) == other@,
                limbs@.len() == i,
                carry <= 1,
                le_value(limbs@) + (carry as nat) * pow256(i as nat) == le_value(
                    pa@.take(i as int),
                ) + le_value(pb@.take(i as int)),
            decreases n - i,
        {
            let t: u32 = pa[i] as u32 + pb[i] as u32 + carry as u32;
            let d: u8 = (t % 256) as u8;
            let c2: u8 = (t / 256) as u8;
            proof {
                let p = pow256(i as nat);
                let ai = pa@[i as int] as nat;
                let bi = pb@[i as int] as nat;
                lemma_le_value_push(limbs@, d);
                assert(pa@.take(i + 1) =~= pa@.take(i as int).push(pa@[i as int]));
                assert(pb@.take(i + 1) =~= pb@.take(i as int).push(pb@[i as int]));
                lemma_le_value_push(pa@.take(i as int), pa@[i as int]);
                lemma_le_value_push(pb@.take(i as int), pb@[i as int]);
                assert(pa@.take(i as int).len() == i);
                assert(pb@.take(i as int).len() == i);
                assert(t as nat == 256 * ((t / 256) as nat) + (t % 256) as nat) by (nonlinear_arith);
                assert(pow256((i + 1) as nat) == 256 * p);
                assert((d as nat) * p + (c2 as nat) * (256 * p) == ai * p + bi * p + (carry as nat)
                    * p) by (nonlinear_arith)
                    requires
                        d as nat + 256 * (c2 as nat) == ai + bi + carry as nat,
                ;
            }
            limbs.push(d);
            carry = c2;
            i = i + 1;
        }
        if carry > 0 {
            proof {
                lemma_le_value_push(limbs@, carry);
            }
            limbs.push(carry);
            carry = 0;
        }
        proof {
            assert(pa@.take(n as int) =~= pa@);
            assert(pb@.take(n as int) =~= pb@);
            assert((0 as nat) * pow256(n as nat) == 0) by (nonlinear_arith);
        }
        Amount { limbs }
    }

    pub fn cmp(&self, other: &Amount) -> (r: Relation)
        ensures
            (r is Less <==> self@ < other@),
            (r is Equal <==> self@ == other@),
            (r is Greater <==> self@ > other@),
    {
        let n = if self.limbs.len() < other.limbs.len() {
            other.limbs.len()
        } else {
            self.limbs.len()
        };
        let pa = self.padded_limbs(n);
        let pb = other.padded_limbs(n);
        let mut j: usize = n;
        while j > 0
            invariant
                j <= n,
                pa@.len() == n,
                pb@.len() == n,
                le_value(pa@) == self@,
                le_value(pb@) == other@,
                forall|k: int| j <= k < n ==> pa@[k] == pb@[k],
            decreases j,
        {
            j = j - 1;
            if pa[j] > pb[j] {
                proof {
                    lemma_le_value_orders(pa@, pb@, j as int);
                }
                return Relation::Greater;
            }
            if pa[j] < pb[j] {
                proof {
                    lemma_le_value_orders(pb@, pa@, j as int);
                }
                return Relation::Less;
            }
        }
        proof {
            assert(pa@ =~= pb@);
        }
        Relation::Equal
    }

    pub fn sub(&self, other: &Amount) -> (r: Amount)
        requires
            other@ <= self@,
        ensures
            r@ == self@ - other@,
    {
        let n = if self.limbs.len() < other.limbs.len() {
            other.limbs.len()
        } else {
            self.limbs.len()
        };
        let pa = self.padded_limbs(n);
        let pb = other.padded_limbs(n);
        let mut limbs: Vec<u8> = Vec::new();
        let mut borrow: u8 = 0;
        let mut i: usize = 0;
        while i < n
            invariant
                i <= n,
                pa@.len() == n,
                pb@.len() == n,
                le_value(pa@) == self@,
                le_value(pb@) == other@,
                limbs@.len() == i,
                borrow <= 1,
                le_value(limbs@) + le_value(pb@.take(i as int)) == le_value(pa@.take(i as int)) + (
                borrow as nat) * pow256(i as nat),
            decreases n - i,
        {
            let t: i32 = pa[i] as i32 - pb[i] as i32 - borrow as i32;
            let d: u8 = if t < 0 {
                (t + 256) as u8
            } else {
                t as u8
            };
            let b2: u8 = if t < 0 {
                1
            } else {
                0
            };
            proof {
                let p = pow256(i as nat);
                let ai = pa@[i as int] as nat;
                let bi = pb@[i as int] as nat;
                lemma_le_value_push(limbs@, d);
                assert(pa@.take(i + 1) =~= pa@.take(i as int).push(pa@[i as int]));
                assert(pb@.take(i + 1) =~= pb@.take(i as int).push(pb@[i as int]));
                lemma_le_value_push(pa@.take(i as int), pa@[i as int]);
                lemma_le_value_push(pb@.take(i as int), pb@[i as int]);
                assert(pa@.take(i as int).len() == i);
                assert(pb@.take(i as int).len() == i);
                assert(pow256((i + 1) as nat) == 256 * p);
                assert((d as nat) * p + (bi as nat) * p + (borrow as nat) * p == ai * p + (
                b2 as nat) * (256 * p)) by (nonlinear_arith)
                    requires
                        d as nat + bi + borrow as nat == ai + 256 * (b2 as nat),
                ;
            }
            limbs.push(d);
            borrow = b2;
            i = i + 1;
        }
        proof {
            assert(pa@.take(n as int) =~= pa@);
            assert(pb@.take(n as int) =~= pb@);
            lemma_le_value_bound(limbs@);
            if borrow == 1 {
                lemma_pow256_pos(n as nat);
                assert(false);
            }
            assert((0 as nat) * pow256(n as nat) == 0) by (nonlinear_arith);
        }
        Amount { limbs }
    }

    /// A fresh amount denoting the same value.
    pub fn duplicate(&self) -> (r: Amount)
        ensures
            r@ == self@,
    {
        Amount { limbs: self.padded_limbs(self.limbs.len()) }
    }

    /// The canonical little-endian bytes of the value: no trailing zero limb.
    pub fn to_le_bytes(&self) -> (r: Vec<u8>)
        ensures
            le_value(r@) == self@,
            r@.len() > 0 ==> r@.last() != 0,
    {
        let mut r = self.padded_limbs(self.limbs.len());
        while r.len() > 0 && r[r.len() - 1] == 0
            invariant
                le_value(r@) == self@,
            decreases r@.len(),
        {
            proof {
                lemma_le_value_drop_zero(r@);
            }
            r.pop();
        }
        r
    }

    pub fn is_zero(&self) -> (r: bool)
        ensures
            r <==> (self@ == 0),
    {
        let len = self.limbs.len();
        let mut i: usize = 0;
        while i < len
            invariant
                i <= len,
                len == self.limbs@.len(),
                forall|k: int| 0 <= k < i ==> self.limbs@[k] == 0,
            decreases len - i,
        {
            if self.limbs[i] != 0 {
                proof {
                    lemma_le_value_zero(self.limbs@);
                }
                return false;
            }
            i = i + 1;
        }
        proof {
            lemma_le_value_zero(self.limbs@);
        }
        true
    }
}

/// An unbounded signed integer: a sign and a magnitude. Ledger balances are
/// running sums of signed deltas and may go below zero.
pub struct Balance {
    negative: bool,
    magnitude: Amount,
}

impl View for Balance {
    type V = int;

    closed spec fn view(&self) -> int {
        if self.negative {
            -(self.magnitude@ as int)
        } else {
            self.magnitude@ as int
        }
    }
}

impl Balance {
    pub fn zero() -> (r: Balance)
        ensures
            r@ == 0,
    {
        Balance { negative: false, magnitude: Amount::zero() }
    }

    /// An amount counted positively, as a deposit is.
    pub fn credit(a: Amount) -> (r: Balance)
        ensures
            r@ == a@,
    {
        Balance { negative: false, magnitude: a }
    }

    /// An amount counted negatively, as a withdrawal is.
    pub fn debit(a: Amount) -> (r: Balance)
        ensures
            r@ == -(a@ as int),
    {
        Balance { negative: true, magnitude: a }
    }

    pub fn add(&self, other: &Balance) -> (r: Balance)
        ensures
            r@ == self@ + other@,
    {
        if self.negative == other.negative {
            Balance { negative: self.negative, magnitude: self.magnitude.add(&other.magnitude) }
        } else {
            match self.magnitude.cmp(&other.magnitude) {
                Relation::Equal => Balance::zero(),
                Relation::Greater => Balance {
                    negative: self.negative,
                    magnitude: self.magnitude.sub(&other.magnitude),
                },
                Relation::Less => Balance {
                    negative: other.negative,
                    magnitude: other.magnitude.sub(&self.magnitude),
                },
            }
        }
    }

    pub fn is_zero(&self) -> (r: bool)
        ensures
            r <==> (self@ == 0),
    {
        self.magnitude.is_zero()
    }

    pub fn same_value(&self, other: &Balance) -> (r: bool)
        ensures
            r <==> (self@ == other@),
    {
        if self.magnitude.is_zero() {
            other.magnitude.is_zero()
        } else if other.magnitude.is_zero() {
            false
        } else if self.negative != other.negative {
            false
        } else {
            matches!(self.magnitude.cmp(&other.magnitude), Relation::Equal)
        }
    }

    /// A fresh balance denoting the same value.
    pub fn duplicate(&self) -> (r: Balance)
        ensures
            r@ == self@,
    {
        Balance { negative: self.negative, magnitude: self.magnitude.duplicate() }
    }

    /// Whether the value lies below zero.
    pub fn is_negative_value(&self) -> (r: bool)
        ensures
            r <==> (self@ < 0),
    {
        self.negative && !self.magnitude.is_zero()
    }

    /// The canonical little-endian bytes of the magnitude of the value.
    pub fn magnitude_le_bytes(&self) -> (r: Vec<u8>)
        ensures
            le_value(r@) == if self@ < 0 {
                -self@
            } else {
                self@
            },
            r@.len() > 0 ==> r@.last() != 0,
    {
        self.magnitude.to_le_bytes()
    }
}

} // verus!
