use vstd::prelude::*;
use crate::octets::copy_bytes;
use crate::timestamp::pow10;

verus! {

/// ASCII `0`.
pub const ZERO: u8 = 0x30;

pub open spec fn is_digit(c: u8) -> bool {
    ZERO <= c && c <= 0x39
}

/// A non-empty string of decimal digits.
pub open spec fn is_decimal(s: Seq<u8>) -> bool {
    s.len() >= 1 && forall|i: int| 0 <= i < s.len() ==> is_digit(#[trigger] s[i])
}

/// The number that a string of decimal digits writes.
pub open spec fn dval(s: Seq<u8>) -> nat
    decreases s.len(),
{
    if s.len() == 0 {
        0
    } else {
        dval(s.drop_last()) * 10 + (s.last() - ZERO) as nat
    }
}

/// `amount × 10^-scale` equals `other × 10^-other_scale`.
pub open spec fn same_value(a: Seq<u8>, sa: nat, b: Seq<u8>, sb: nat) -> bool {
    dval(a) * pow10(sb) == dval(b) * pow10(sa)
}

/// The amount is not a string of decimal digits.
#[derive(Debug, PartialEq, Eq)]
pub struct InvalidQuantityError;

/// An amount of an asset: the decimal digits of `amount`, scaled down by `10^scale`.
#[derive(Debug, Clone)]
pub struct Quantity {
    pub amount: Vec<u8>,
    pub scale: u8,
}

proof fn lemma_pow10_pos(k: nat)
    ensures
        pow10(k) >= 1,
    decreases k,
{
    if k > 0 {
        lemma_pow10_pos((k - 1) as nat);
    }
}

/// Appending `k` zeros multiplies by `10^k`.
proof fn lemma_append_zeros(s: Seq<u8>, k: nat)
    ensures
        dval(s + Seq::new(k, |_i: int| ZERO)) == dval(s) * pow10(k),
    decreases k,
{
    if k > 0 {
        let z = Seq::new(k, |_i: int| ZERO);
        let z1 = Seq::new((k - 1) as nat, |_i: int| ZERO);
        lemma_append_zeros(s, (k - 1) as nat);
        assert((s + z).drop_last() =~= s + z1);
        assert(dval(s) * pow10(k) == dval(s) * pow10((k - 1) as nat) * 10) by (nonlinear_arith)
            requires
                pow10(k) == 10 * pow10((k - 1) as nat),
        ;
    }
}

/// A leading zero does not change the number.
proof fn lemma_leading_zero(s: Seq<u8>)
    ensures
        dval(seq![ZERO] + s) == dval(s),
    decreases s.len(),
{
    let z = seq![ZERO] + s;
    if s.len() > 0 {
        lemma_leading_zero(s.drop_last());
        assert(z.drop_last() =~= seq![ZERO] + s.drop_last());
        assert(z.last() == s.last());
    } else {
        assert(z.drop_last() =~= Seq::<u8>::empty());
        assert(dval(Seq::<u8>::empty()) == 0);
        assert(z.last() == ZERO);
    }
}

/// Digits without a leading zero write a number of exactly that many digits.
proof fn lemma_magnitude(s: Seq<u8>)
    requires
        is_decimal(s),
        s[0] != ZERO,
    ensures
        pow10((s.len() - 1) as nat) <= dval(s) < pow10(s.len() as nat),
    decreases s.len(),
{
    let n = s.len();
    assert(pow10(0) == 1);
    assert(pow10(1) == 10);
    if n == 1 {
        assert(s.drop_last().len() == 0);
        assert(dval(s.drop_last()) == 0);
        assert(is_digit(s[0]));
        assert(s.last() == s[0]);
    } else {
        let t = s.drop_last();
        assert(t[0] == s[0]);
        assert(is_decimal(t)) by {
            assert forall|i: int| 0 <= i < t.len() implies is_digit(#[trigger] t[i]) by {
                assert(t[i] == s[i]);
            }
        }
        lemma_magnitude(t);
        let d = (s.last() - ZERO) as nat;
        assert(is_digit(s[n - 1]));
        let p = pow10((n - 2) as nat);
        assert(pow10((n - 1) as nat) == 10 * p);
        assert(pow10(n as nat) == 100 * p);
        let v = dval(t);
        assert(10 * p <= v * 10 + d < 100 * p) by (nonlinear_arith)
            requires
                p <= v < 10 * p,
                d <= 9,
        ;
    }
}

proof fn lemma_prefix_decimal(s: Seq<u8>)
    requires
        is_decimal(s),
        s.len() >= 2,
    ensures
        is_decimal(s.drop_last()),
        s.drop_last()[0] == s[0],
{
    let t = s.drop_last();
    assert forall|i: int| 0 <= i < t.len() implies is_digit(#[trigger] t[i]) by {
        assert(t[i] == s[i]);
    }
}

/// Digits without leading zeros that write the same number are the same digits.
proof fn lemma_digits_unique(a: Seq<u8>, b: Seq<u8>)
    requires
        is_decimal(a),
        is_decimal(b),
        a[0] != ZERO || a.len() == 1,
        b[0] != ZERO || b.len() == 1,
        dval(a) == dval(b),
    ensures
        a == b,
    decreases a.len(),
{
    let ta = a.drop_last();
    let tb = b.drop_last();
    assert(is_digit(a[a.len() - 1]));
    assert(is_digit(b[b.len() - 1]));
    let da = (a.last() - ZERO) as nat;
    let db = (b.last() - ZERO) as nat;
    let va = dval(ta);
    let vb = dval(tb);
    assert(va * 10 + da == vb * 10 + db);
    assert(da == db && va == vb) by (nonlinear_arith)
        requires
            va * 10 + da == vb * 10 + db,
            da < 10,
            db < 10,
    ;
    if ta.len() == 0 && tb.len() == 0 {
        assert(a =~= b);
    } else if ta.len() == 0 {
        lemma_prefix_decimal(b);
        lemma_magnitude(tb);
        lemma_pow10_pos((tb.len() - 1) as nat);
    } else if tb.len() == 0 {
        lemma_prefix_decimal(a);
        lemma_magnitude(ta);
        lemma_pow10_pos((ta.len() - 1) as nat);
    } else {
        lemma_prefix_decimal(a);
        lemma_prefix_decimal(b);
        lemma_digits_unique(ta, tb);
        assert(a =~= ta.push(a.last()));
        assert(b =~= tb.push(b.last()));
    }
}

/// `s` with its leading zeros removed, keeping at least one digit.
fn strip_leading_zeros(s: &Vec<u8>) -> (r: Vec<u8>)
    requires
        is_decimal(s@),
    ensures
        is_decimal(r@),
        r@[0] != ZERO || r@.len() == 1,
        dval(r@) == dval(s@),
{
    let n = s.len();
    let mut i: usize = 0;
    assert(s@.subrange(0, s@.len() as int) =~= s@);
    while i + 1 < n && s[i] == ZERO
        invariant
            n == s@.len(),
            0 <= i < s@.len(),
            is_decimal(s@),
            dval(s@.subrange(i as int, s@.len() as int)) == dval(s@),
        decreases s@.len() - i,
    {
        let ghost rest = s@.subrange(i + 1, s@.len() as int);
        assert(s@.subrange(i as int, s@.len() as int) =~= seq![ZERO] + rest);
        proof {
            lemma_leading_zero(rest);
        }
        i = i + 1;
    }
    let r = crate::octets::copy_range(s.as_slice(), i, s.len());
    assert forall|k: int| 0 <= k < r@.len() implies is_digit(#[trigger] r@[k]) by {
        assert(r@[k] == s@[i + k]);
    }
    r
}

fn with_zeros(s: &Vec<u8>, k: u8) -> (r: Vec<u8>)
    ensures
        r@ == s@ + Seq::new(k as nat, |_i: int| ZERO),
{
    let mut r = copy_bytes(s.as_slice());
    let mut j: u8 = 0;
    while j < k
        invariant
            0 <= j <= k,
            r@ == s@ + Seq::new(j as nat, |_i: int| ZERO),
        decreases k - j,
    {
        r.push(ZERO);
        j = j + 1;
        assert(r@ =~= s@ + Seq::new(j as nat, |_i: int| ZERO));
    }
    r
}

impl Quantity {
    pub open spec fn wf(&self) -> bool {
        is_decimal(self.amount@)
    }

    /// A quantity of `amount`, a string of decimal digits, at `scale`.
    pub fn new(amount: &[u8], scale: u8) -> (r: Result<Quantity, InvalidQuantityError>)
        ensures
            r is Ok <==> is_decimal(amount@),
            r matches Ok(q) ==> q.amount@ == amount@ && q.scale == scale && q.wf(),
    {
        if amount.len() == 0 {
            return Err(InvalidQuantityError);
        }
        let mut i: usize = 0;
        while i < amount.len()
            invariant
                0 <= i <= amount@.len(),
                forall|k: int| 0 <= k < i ==> is_digit(#[trigger] amount@[k]),
            decreases amount@.len() - i,
        {
            if amount[i] < ZERO || amount[i] > 0x39 {
                return Err(InvalidQuantityError);
            }
            i = i + 1;
        }
        Ok(Quantity { amount: copy_bytes(amount), scale })
    }

    /// Whether two quantities are the same amount once brought to a common scale.
    pub fn same_amount(&self, other: &Quantity) -> (r: bool)
        requires
            self.wf(),
            other.wf(),
        ensures
            r == same_value(self.amount@, self.scale as nat, other.amount@, other.scale as nat),
    {
        let x = with_zeros(&self.amount, other.scale);
        let y = with_zeros(&other.amount, self.scale);
        proof {
            lemma_append_zeros(self.amount@, other.scale as nat);
            lemma_append_zeros(other.amount@, self.scale as nat);
            assert forall|k: int| 0 <= k < x@.len() implies is_digit(#[trigger] x@[k]) by {
                if k >= self.amount@.len() {
                    assert(x@[k] == ZERO);
                }
            }
            assert forall|k: int| 0 <= k < y@.len() implies is_digit(#[trigger] y@[k]) by {
                if k >= other.amount@.len() {
                    assert(y@[k] == ZERO);
                }
            }
        }
        let xs = strip_leading_zeros(&x);
        let ys = strip_leading_zeros(&y);
        let eq = crate::octets::bytes_equal(xs.as_slice(), ys.as_slice());
        proof {
            if dval(xs@) == dval(ys@) {
                lemma_digits_unique(xs@, ys@);
            }
        }
        eq
    }
}

} // verus!
