use vstd::prelude::*;
use crate::decimal::pow10;
use vstd::arithmetic::div_mod::lemma_fundamental_div_mod_converse;

verus! {

/// Value of little-endian decimal digits.
pub open spec fn dval(s: Seq<u8>) -> int
    decreases s.len(),
{
    if s.len() == 0 {
        0
    } else {
        dval(s.drop_last()) + s.last() * pow10((s.len() - 1) as nat)
    }
}

pub open spec fn all_digits(s: Seq<u8>) -> bool {
    forall|i: int| 0 <= i < s.len() ==> #[trigger] s[i] < 10
}

/// `b` to the power `e`.
pub open spec fn ipow(b: int, e: nat) -> int
    decreases e,
{
    if e == 0 {
        1
    } else {
        b * ipow(b, (e - 1) as nat)
    }
}

proof fn lemma_pow10_succ(n: nat)
    ensures
        pow10(n + 1) == 10 * pow10(n),
        pow10(n) >= 1,
{
    crate::decimal::lemma_pow10_pos(n);
}

proof fn lemma_dval_bound(s: Seq<u8>)
    requires
        all_digits(s),
    ensures
        0 <= dval(s) < pow10(s.len()),
    decreases s.len(),
{
    if s.len() > 0 {
        let t = s.drop_last();
        assert(all_digits(t)) by {
            assert forall|i: int| 0 <= i < t.len() implies #[trigger] t[i] < 10 by {
                assert(t[i] == s[i]);
            }
        }
        lemma_dval_bound(t);
        lemma_pow10_succ(t.len());
        let p = pow10(t.len());
        assert(s.last() < 10);
        assert(dval(s) == dval(t) + s.last() * p);
        assert(dval(t) + s.last() * p < 10 * p) by (nonlinear_arith)
            requires
                dval(t) < p,
                s.last() <= 9,
                s.last() >= 0,
                p >= 1,
        ;
        assert(0 <= s.last() * p) by (nonlinear_arith)
            requires
                s.last() >= 0,
                p >= 1,
        ;
    }
}

/// The value splits at position `t`: low digits plus `10^t` times the high ones.
proof fn lemma_dval_split(s: Seq<u8>, t: int)
    requires
        0 <= t <= s.len(),
    ensures
        dval(s) == dval(s.subrange(0, t)) + pow10(t as nat) * dval(s.subrange(t, s.len() as int)),
    decreases s.len(),
{
    if t == s.len() {
        assert(s.subrange(0, t) == s);
        assert(s.subrange(t, s.len() as int).len() == 0);
    } else {
        let u = s.drop_last();
        lemma_dval_split(u, t);
        assert(u.subrange(0, t) == s.subrange(0, t));
        let hi = s.subrange(t, s.len() as int);
        assert(hi.drop_last() == u.subrange(t, u.len() as int));
        assert(hi.last() == s.last());
        crate::decimal::lemma_pow10_pos(t as nat);
        lemma_pow10_add(t as nat, (hi.len() - 1) as nat);
        assert(pow10(t as nat) * dval(hi) == pow10(t as nat) * dval(hi.drop_last()) + pow10(t as nat) * (hi.last()
            * pow10((hi.len() - 1) as nat))) by (nonlinear_arith)
            requires
                dval(hi) == dval(hi.drop_last()) + hi.last() * pow10((hi.len() - 1) as nat),
        ;
        assert(pow10(t as nat) * (hi.last() * pow10((hi.len() - 1) as nat)) == s.last() * pow10((s.len() - 1) as nat))
            by (nonlinear_arith)
            requires
                pow10(t as nat) * pow10((hi.len() - 1) as nat) == pow10((s.len() - 1) as nat),
                hi.last() == s.last(),
        ;
    }
}

proof fn lemma_pow10_add(a: nat, b: nat)
    ensures
        pow10(a) * pow10(b) == pow10(a + b),
    decreases b,
{
    if b > 0 {
        lemma_pow10_add(a, (b - 1) as nat);
        assert(pow10(a + b) == 10 * pow10((a + b - 1) as nat));
        assert(pow10(a) * pow10(b) == pow10(a) * (10 * pow10((b - 1) as nat)));
        assert(pow10(a) * (10 * pow10((b - 1) as nat)) == 10 * (pow10(a) * pow10((b - 1) as nat))) by (nonlinear_arith);
    }
}

/// Little-endian digits of `x`.
pub fn to_digits(x: u64) -> (r: Vec<u8>)
    ensures
        dval(r@) == x,
        all_digits(r@),
{
    let mut out: Vec<u8> = Vec::new();
    let mut rest: u64 = x;
    while rest > 0
        invariant
            dval(out@) + pow10(out@.len()) * rest == x,
            all_digits(out@),
        decreases rest,
    {
        let d = (rest % 10) as u8;
        let ghost before = out@;
        out.push(d);
        proof {
            assert(out@.drop_last() == before);
            assert(out@.last() == d);
            assert(dval(out@) == dval(before) + d * pow10(before.len()));
            lemma_pow10_succ(before.len());
            let p = pow10(before.len());
            assert(rest == 10 * (rest / 10) + rest % 10);
            assert(p * rest == p * (rest % 10) + (10 * p) * (rest / 10)) by (nonlinear_arith)
                requires
                    rest == 10 * (rest / 10) + rest % 10,
            ;
            assert(d == rest % 10);
            assert forall|j: int| 0 <= j < out@.len() implies #[trigger] out@[j] < 10 by {
                if j < before.len() {
                    assert(out@[j] == before[j]);
                }
            }
        }
        rest = rest / 10;
    }
    out
}

/// `ds` times `m`, as digits.
pub fn mul_digits(ds: &Vec<u8>, m: u64) -> (r: Vec<u8>)
    requires
        all_digits(ds@),
        m < 1_000_000_000_000_000_000,
    ensures
        dval(r@) == dval(ds@) * m,
        all_digits(r@),
{
    let mut out: Vec<u8> = Vec::new();
    let mut carry: u128 = 0;
    let mut i: usize = 0;
    while i < ds.len()
        invariant
            i <= ds@.len(),
            all_digits(ds@),
            m < 1_000_000_000_000_000_000,
            out@.len() == i,
            all_digits(out@),
            carry <= m,
            dval(out@) + pow10(i as nat) * carry == dval(ds@.subrange(0, i as int)) * m,
        decreases ds@.len() - i,
    {
        let d = ds[i];
        assert(ds@[i as int] < 10);
        assert((d as int) * (m as int) <= 9 * 1_000_000_000_000_000_000) by (nonlinear_arith)
            requires
                d < 10,
                m < 1_000_000_000_000_000_000,
        ;
        let t: u128 = (d as u128) * (m as u128) + carry;
        let ghost before = out@;
        out.push((t % 10) as u8);
        proof {
            assert(d < 10);
            assert(ds@.subrange(0, i + 1).drop_last() == ds@.subrange(0, i as int));
            assert(ds@.subrange(0, i + 1).last() == d);
            assert(out@.drop_last() == before);
            assert(out@.last() == (t % 10) as u8);
            assert(dval(out@) == dval(before) + ((t % 10) as u8) * pow10(i as nat));
            assert forall|j: int| 0 <= j < out@.len() implies #[trigger] out@[j] < 10 by {
                if j < before.len() {
                    assert(out@[j] == before[j]);
                }
            }
            lemma_pow10_succ(i as nat);
            let p = pow10(i as nat);
            let dv = dval(ds@.subrange(0, i as int));
            assert(t == 10 * (t / 10) + t % 10);
            assert(dval(out@) + pow10((i + 1) as nat) * (t / 10) == dval(ds@.subrange(0, i + 1)) * m) by (nonlinear_arith)
                requires
                    dval(out@) == dval(before) + (t % 10) * p,
                    pow10((i + 1) as nat) == 10 * p,
                    t == 10 * (t / 10) + t % 10,
                    t == d * m + carry,
                    dval(before) + p * carry == dv * m,
                    dval(ds@.subrange(0, i + 1)) == dv + d * p,
            ;
            assert(t / 10 <= m) by (nonlinear_arith)
                requires
                    t == d * m + carry,
                    d <= 9,
                    carry <= m,
            ;
        }
        carry = t / 10;
        i = i + 1;
    }
    proof {
        assert(ds@.subrange(0, ds@.len() as int) == ds@);
    }
    while carry > 0
        invariant
            all_digits(out@),
            dval(out@) + pow10(out@.len()) * carry == dval(ds@) * m,
        decreases carry,
    {
        let ghost before = out@;
        out.push((carry % 10) as u8);
        proof {
            assert(out@.drop_last() == before);
            assert(out@.last() == (carry % 10) as u8);
            assert(dval(out@) == dval(before) + ((carry % 10) as u8) * pow10(before.len()));
            assert forall|j: int| 0 <= j < out@.len() implies #[trigger] out@[j] < 10 by {
                if j < before.len() {
                    assert(out@[j] == before[j]);
                }
            }
            lemma_pow10_succ(before.len());
            let p = pow10(before.len());
            assert(carry == 10 * (carry / 10) + carry % 10);
            assert(p * carry == p * (carry % 10) + (10 * p) * (carry / 10)) by (nonlinear_arith)
                requires
                    carry == 10 * (carry / 10) + carry % 10,
            ;
        }
        carry = carry / 10;
    }
    proof {
        assert(ds@.subrange(0, ds@.len() as int) == ds@);
    }
    out
}

/// `min(dval(ds) / 10^t, cap)` with `cap = 2^63`: the digits above position `t`, saturated.
pub fn shifted_saturated(ds: &Vec<u8>, t: u64) -> (r: u64)
    requires
        all_digits(ds@),
    ensures
        r as int == if dval(ds@) / pow10(t as nat) < 0x8000_0000_0000_0000 {
            dval(ds@) / pow10(t as nat)
        } else {
            0x8000_0000_0000_0000
        },
{
    let n = ds.len();
    let start: usize = if (t as u128) < (n as u128) {
        t as usize
    } else {
        n
    };
    proof {
        lemma_dval_bound(ds@);
        crate::decimal::lemma_pow10_pos(t as nat);
        if (t as int) < n {
            lemma_dval_split(ds@, t as int);
            assert forall|j: int| 0 <= j < ds@.subrange(0, t as int).len() implies #[trigger] ds@.subrange(0, t as int)[j] < 10 by {
                assert(ds@.subrange(0, t as int)[j] == ds@[j]);
            }
            lemma_dval_bound(ds@.subrange(0, t as int));
            assert(dval(ds@) == dval(ds@.subrange(t as int, n as int)) * pow10(t as nat) + dval(ds@.subrange(0, t as int))) by (nonlinear_arith)
                requires
                    dval(ds@) == dval(ds@.subrange(0, t as int)) + pow10(t as nat) * dval(ds@.subrange(t as int, n as int)),
            ;
            lemma_fundamental_div_mod_converse(
                dval(ds@),
                pow10(t as nat),
                dval(ds@.subrange(t as int, n as int)),
                dval(ds@.subrange(0, t as int)),
            );
        } else {
            crate::decimal::lemma_pow10_mono_pub(n as nat, t as nat);
            assert(dval(ds@) == 0 * pow10(t as nat) + dval(ds@));
            lemma_fundamental_div_mod_converse(dval(ds@), pow10(t as nat), 0, dval(ds@));
            assert(ds@.subrange(start as int, n as int).len() == 0);
        }
        assert(dval(ds@) / pow10(t as nat) == dval(ds@.subrange(start as int, n as int)));
    }
    let cap: u128 = 0x8000_0000_0000_0000;
    let mut acc: u128 = 0;
    let mut i: usize = n;
    assert(ds@.subrange(n as int, n as int).len() == 0);
    while i > start
        invariant
            start <= i <= n,
            n == ds@.len(),
            all_digits(ds@),
            cap == 0x8000_0000_0000_0000,
            acc as int == if dval(ds@.subrange(i as int, n as int)) < cap { dval(ds@.subrange(i as int, n as int)) } else { cap as int },
        decreases i - start,
    {
        let d = ds[i - 1];
        proof {
            let s = ds@.subrange(i - 1, n as int);
            lemma_dval_split(s, 1);
            assert(s.subrange(1, s.len() as int) == ds@.subrange(i as int, n as int));
            assert(s.subrange(0, 1).drop_last().len() == 0);
            assert(s[0] == d);
            assert(s.subrange(0, 1).last() == d);
            assert(dval(s.subrange(0, 1).drop_last()) == 0);
            assert(pow10(0) == 1);
            assert(dval(s.subrange(0, 1)) == dval(s.subrange(0, 1).drop_last()) + d * pow10(0));
            assert(dval(s.subrange(0, 1)) == d);
            assert forall|j: int| 0 <= j < ds@.subrange(i as int, n as int).len() implies #[trigger] ds@.subrange(
                i as int,
                n as int,
            )[j] < 10 by {
                assert(ds@.subrange(i as int, n as int)[j] == ds@[i + j]);
            }
            lemma_dval_bound(ds@.subrange(i as int, n as int));
            let v = dval(ds@.subrange(i as int, n as int));
            assert(pow10(1) == 10) by {
                reveal_with_fuel(pow10, 2);
            }
            assert(dval(s) == d + 10 * v);
            assert(ds@[i - 1] < 10);
            assert(d < 10);
        }
        let ghost v = dval(ds@.subrange(i as int, n as int));
        let ghost v2 = dval(ds@.subrange(i - 1, n as int));
        proof {
            assert(v2 == d + 10 * v);
        }
        let next: u128 = acc * 10 + d as u128;
        acc = if next < cap {
            next
        } else {
            cap
        };
        proof {
            if v < cap {
                assert(next == v2);
            } else {
                assert(next >= cap);
                assert(v2 >= cap);
            }
        }
        i = i - 1;
    }
    acc as u64
}

} // verus!
