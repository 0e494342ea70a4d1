//! Integer-level sampling policy of the filter-primitive evaluators:
//! how an out-of-image sample coordinate maps back into the image under
//! each `edgeMode` (Filter Effects §9.14).

use vstd::prelude::*;

use crate::filter::EdgeMode;

verus! {

/// The in-image index a sample at `c` reads on an axis of `len` pixels,
/// or `None` when it contributes transparent black.
pub open spec fn edge_sample_spec(c: int, len: int, mode: EdgeMode) -> Option<int> {
    if len == 0 {
        None
    } else {
        match mode {
            EdgeMode::Zero => if 0 <= c < len {
                Some(c)
            } else {
                None
            },
            EdgeMode::Duplicate => Some(
                if c < 0 {
                    0
                } else if c > len - 1 {
                    len - 1
                } else {
                    c
                },
            ),
            EdgeMode::Wrap => Some(c % len),
        }
    }
}

/// Resolve a sample coordinate `c` against an axis of `len` pixels under
/// the `edgeMode` policy: `none` reads zero outside the image,
/// `duplicate` clamps to the nearest border pixel, `wrap` reads from the
/// opposite edge (Euclidean modulo, so negative coordinates wrap to the
/// high edge).
pub fn edge_sample(c: isize, len: usize, mode: EdgeMode) -> (r: Option<usize>)
    requires
        len <= isize::MAX,
    ensures
        match edge_sample_spec(c as int, len as int, mode) {
            Some(i) => r == Some(i as usize),
            None => r.is_none(),
        },
        r matches Some(i) ==> i < len,
{
    if len == 0 {
        return None;
    }
    let n: isize = len as isize;
    match mode {
        EdgeMode::Zero => {
            if c >= 0 && c < n {
                Some(c as usize)
            } else {
                None
            }
        },
        EdgeMode::Duplicate => {
            if c < 0 {
                Some(0)
            } else if c > n - 1 {
                Some((n - 1) as usize)
            } else {
                Some(c as usize)
            }
        },
        EdgeMode::Wrap => {
            if c >= 0 {
                let u: usize = c as usize;
                Some(u % len)
            } else {
                let k: usize = (-(c + 1)) as usize;
                let m: usize = (k % len + 1) % len;
                proof {
                    lemma_wrap_negative(c as int, k as int, len as int, m as int);
                }
                if m == 0 {
                    Some(0)
                } else {
                    Some(len - m)
                }
            }
        },
    }
}

proof fn lemma_wrap_negative(c: int, k: int, n: int, m: int)
    requires
        c < 0,
        k == -(c + 1),
        n > 0,
        m == (k % n + 1) % n,
    ensures
        c % n == (if m == 0 {
            0
        } else {
            n - m
        }),
{
    // -c = k + 1, and (k + 1) % n == m.
    vstd::arithmetic::div_mod::lemma_add_mod_noop(k, 1, n);
    if n > 1 {
        vstd::arithmetic::div_mod::lemma_small_mod(1nat, n as nat);
    } else {
        vstd::arithmetic::div_mod::lemma_mod_bound(k + 1, n);
        vstd::arithmetic::div_mod::lemma_mod_bound(k % n + 1, n);
    }
    assert((k + 1) % n == m);
    let q = (k + 1) / n;
    vstd::arithmetic::div_mod::lemma_fundamental_div_mod(k + 1, n);
    assert(k + 1 == n * q + m);
    // c = -(k + 1) = n * (-q) - m
    vstd::arithmetic::div_mod::lemma_mod_bound(k + 1, n);
    if m == 0 {
        assert(c == (-q) * n + 0) by (nonlinear_arith)
            requires
                k + 1 == n * q + m,
                m == 0,
                c == -(k + 1),
        ;
        vstd::arithmetic::div_mod::lemma_fundamental_div_mod_converse(c, n, -q, 0);
    } else {
        assert(c == (-q - 1) * n + (n - m)) by (nonlinear_arith)
            requires
                k + 1 == n * q + m,
                c == -(k + 1),
        ;
        vstd::arithmetic::div_mod::lemma_fundamental_div_mod_converse(c, n, -q - 1, n - m);
    }
}


/// The `edgeMode` policies as properties of the sample index: inside the
/// image every policy reads the sample itself; `none` reads nothing
/// outside; `duplicate` reads the nearer border pixel; `wrap` reads a
/// pixel of the image congruent to the sample modulo the axis length.
pub proof fn lemma_edge_policies(c: int, len: int, mode: EdgeMode)
    requires
        len > 0,
    ensures
        0 <= c < len ==> edge_sample_spec(c, len, mode) == Some(c),
        mode == EdgeMode::Zero && !(0 <= c < len) ==> edge_sample_spec(c, len, mode) is None,
        mode == EdgeMode::Duplicate && c < 0 ==> edge_sample_spec(c, len, mode) == Some(0int),
        mode == EdgeMode::Duplicate && c >= len ==> edge_sample_spec(c, len, mode) == Some(len - 1),
        mode == EdgeMode::Wrap ==> (edge_sample_spec(c, len, mode) matches Some(i) && 0 <= i < len
            && (c - i) % len == 0),
{
    if mode == EdgeMode::Wrap {
        if 0 <= c < len {
            assert(c % len == c) by (nonlinear_arith)
                requires
                    0 <= c < len,
            ;
        }
        let i = c % len;
        assert(c == (c / len) * len + i) by (nonlinear_arith)
            requires
                len > 0,
                i == c % len,
        ;
        assert((c - i) % len == 0) by (nonlinear_arith)
            requires
                len > 0,
                c - i == (c / len) * len,
        ;
    }
}

} // verus!
