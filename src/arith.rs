//! Two's-complement wrapping arithmetic on `isize`, modelled over `int`.
//!
//! Matrix cells are `isize`. Sums and products of cells wrap around on
//! overflow, so every cell of a computed matrix is the exact integer result
//! reduced into the `isize` range. Because reduction commutes with `+`, `-`
//! and `*`, algebraic identities over `int` carry over to the wrapped values.
use vstd::arithmetic::div_mod::{
    lemma_add_mod_noop, lemma_mod_add_multiples_vanish, lemma_mod_bound, lemma_mod_sub_multiples_vanish,
    lemma_mul_mod_noop, lemma_small_mod, lemma_sub_mod_noop,
};
use vstd::prelude::*;

verus! {

/// The number of distinct `isize` values.
pub open spec fn isize_modulus() -> int {
    usize::MAX as int + 1
}

/// The `isize` that the integer `x` becomes under two's-complement wrapping:
/// the unique value in `isize`'s range congruent to `x` modulo `isize_modulus()`.
pub open spec fn wrap(x: int) -> isize {
    let r = x % isize_modulus();
    if r > isize::MAX as int {
        (r - isize_modulus()) as isize
    } else {
        r as isize
    }
}

/// `wrap(x)` is congruent to `x`.
pub proof fn lemma_wrap_congruent(x: int)
    ensures
        (wrap(x) as int) % isize_modulus() == x % isize_modulus(),
{
    let m = isize_modulus();
    let r = x % m;
    lemma_mod_bound(x, m);
    lemma_small_mod(r as nat, m as nat);
    if r > isize::MAX as int {
        lemma_mod_sub_multiples_vanish(r, m);
    }
}

/// A value already in `isize`'s range is left unchanged.
pub proof fn lemma_wrap_in_range(v: int)
    requires
        isize::MIN as int <= v <= isize::MAX as int,
    ensures
        wrap(v) as int == v,
{
    let m = isize_modulus();
    if v >= 0 {
        lemma_small_mod(v as nat, m as nat);
    } else {
        lemma_small_mod((v + m) as nat, m as nat);
        lemma_mod_add_multiples_vanish(v, m);
    }
}

/// Wrapping the operands of `+` first does not change the wrapped sum.
pub proof fn lemma_wrap_add(x: int, y: int)
    ensures
        wrap(wrap(x) as int + wrap(y) as int) == wrap(x + y),
{
    let m = isize_modulus();
    lemma_wrap_congruent(x);
    lemma_wrap_congruent(y);
    lemma_add_mod_noop(wrap(x) as int, wrap(y) as int, m);
    lemma_add_mod_noop(x, y, m);
}

/// Wrapping the operands of `-` first does not change the wrapped difference.
pub proof fn lemma_wrap_sub(x: int, y: int)
    ensures
        wrap(wrap(x) as int - wrap(y) as int) == wrap(x - y),
{
    let m = isize_modulus();
    lemma_wrap_congruent(x);
    lemma_wrap_congruent(y);
    lemma_sub_mod_noop(wrap(x) as int, wrap(y) as int, m);
    lemma_sub_mod_noop(x, y, m);
}

/// Wrapping the operands of `*` first does not change the wrapped product.
pub proof fn lemma_wrap_mul(x: int, y: int)
    ensures
        wrap(wrap(x) as int * wrap(y) as int) == wrap(x * y),
{
    let m = isize_modulus();
    lemma_wrap_congruent(x);
    lemma_wrap_congruent(y);
    lemma_mul_mod_noop(wrap(x) as int, wrap(y) as int, m);
    lemma_mul_mod_noop(x, y, m);
}

/// Adding or subtracting the modulus does not change the wrapped value.
proof fn lemma_wrap_shift(v: int)
    ensures
        wrap(v + isize_modulus()) == wrap(v),
        wrap(v - isize_modulus()) == wrap(v),
{
    let m = isize_modulus();
    lemma_mod_add_multiples_vanish(v, m);
    lemma_mod_sub_multiples_vanish(v, m);
}

/// The sum of two cells, wrapped.
pub fn add_wrapped(x: isize, y: isize) -> (r: isize)
    ensures
        r == wrap(x + y),
{
    proof {
        let s = x + y;
        lemma_wrap_shift(s);
        if s > isize::MAX as int {
            lemma_wrap_in_range(s - isize_modulus());
        } else if s < isize::MIN as int {
            lemma_wrap_in_range(s + isize_modulus());
        } else {
            lemma_wrap_in_range(s);
        }
    }
    x.wrapping_add(y)
}

/// The difference of two cells, wrapped.
pub fn sub_wrapped(x: isize, y: isize) -> (r: isize)
    ensures
        r == wrap(x - y),
{
    proof {
        let s = x - y;
        lemma_wrap_shift(s);
        if s > isize::MAX as int {
            lemma_wrap_in_range(s - isize_modulus());
        } else if s < isize::MIN as int {
            lemma_wrap_in_range(s + isize_modulus());
        } else {
            lemma_wrap_in_range(s);
        }
    }
    x.wrapping_sub(y)
}

/// The product of two cells, wrapped.
pub fn mul_wrapped(x: isize, y: isize) -> (r: isize)
    ensures
        r == wrap(x * y),
{
    x.wrapping_mul(y)
}

} // verus!
