//! Moving the contents of a block of maybe-empty slots around in place.
//!
//! Every move is an exchange of two slots, so no value is ever duplicated or
//! lost; a slot that a block leaves behind ends up empty when the slots the
//! block moves onto were empty.
use vstd::prelude::*;

verus! {

/// Exchanges the contents of slots `i` and `j`.
pub(crate) fn swap_cells<T>(buf: &mut std::vec::Vec<Option<T>>, i: usize, j: usize)
    requires
        i < old(buf)@.len(),
        j < old(buf)@.len(),
    ensures
        final(buf)@ == old(buf)@.update(i as int, old(buf)@[j as int]).update(
            j as int,
            old(buf)@[i as int],
        ),
{
    if i == j {
        assert(buf@ =~= buf@.update(i as int, buf@[j as int]).update(j as int, buf@[i as int]));
    } else {
        let a = buf[i].take();
        let b = buf[j].take();
        buf.set(i, b);
        buf.set(j, a);
    }
}

/// Moves the `n` cells at `src` up to `dst`, highest first, leaving the
/// cells that were vacated empty. The cells the block lands on beyond its
/// old place must be empty.
pub(crate) fn shift_up<T>(buf: &mut std::vec::Vec<Option<T>>, src: usize, dst: usize, n: usize)
    requires
        src < dst,
        dst + n <= old(buf)@.len(),
        forall|k: int| src + n <= k < dst + n ==> #[trigger] old(buf)@[k] is None,
    ensures
        final(buf)@.len() == old(buf)@.len(),
        forall|k: int|
            0 <= k < old(buf)@.len() ==> #[trigger] final(buf)@[k] == if dst <= k < dst + n {
                old(buf)@[k - (dst - src)]
            } else if src <= k < dst {
                None
            } else {
                old(buf)@[k]
            },
{
    let ghost pre = buf@;
    let len = buf.len();
    let mut t: usize = n;
    while t > 0
        invariant
            buf@.len() == pre.len(),
            pre.len() == len,
            t <= n,
            src < dst,
            dst + n <= pre.len(),
            forall|k: int|
                0 <= k < pre.len() ==> #[trigger] buf@[k] == if dst + t <= k < dst + n {
                    pre[k - (dst - src)]
                } else if src + t <= k < dst + t {
                    None
                } else {
                    pre[k]
                },
        decreases t,
    {
        swap_cells(buf, src + t - 1, dst + t - 1);
        t -= 1;
    }
}

/// Moves the `n` cells at `src` down to `dst`, lowest first, leaving the
/// cells that were vacated empty. The cells between `dst` and `src` must be
/// empty.
pub(crate) fn shift_down<T>(buf: &mut std::vec::Vec<Option<T>>, src: usize, dst: usize, n: usize)
    requires
        dst < src,
        src + n <= old(buf)@.len(),
        forall|k: int| dst <= k < src ==> #[trigger] old(buf)@[k] is None,
    ensures
        final(buf)@.len() == old(buf)@.len(),
        forall|k: int|
            0 <= k < old(buf)@.len() ==> #[trigger] final(buf)@[k] == if dst <= k < dst + n {
                old(buf)@[k + (src - dst)]
            } else if dst + n <= k < src + n {
                None
            } else {
                old(buf)@[k]
            },
{
    let ghost pre = buf@;
    let len = buf.len();
    let mut t: usize = 0;
    while t < n
        invariant
            buf@.len() == pre.len(),
            pre.len() == len,
            t <= n,
            dst < src,
            src + n <= pre.len(),
            forall|k: int|
                0 <= k < pre.len() ==> #[trigger] buf@[k] == if dst <= k < dst + t {
                    pre[k + (src - dst)]
                } else if dst + t <= k < src + t {
                    None
                } else {
                    pre[k]
                },
        decreases n - t,
    {
        swap_cells(buf, dst + t, src + t);
        t += 1;
    }
}

/// Moves the `n` cells at `src` to the empty cells at `dst`, which do not
/// overlap them, leaving the cells at `src` empty.
pub(crate) fn move_disjoint<T>(buf: &mut std::vec::Vec<Option<T>>, src: usize, dst: usize, n: usize)
    requires
        src + n <= dst || dst + n <= src,
        src + n <= old(buf)@.len(),
        dst + n <= old(buf)@.len(),
        forall|k: int| dst <= k < dst + n ==> #[trigger] old(buf)@[k] is None,
    ensures
        final(buf)@.len() == old(buf)@.len(),
        forall|k: int|
            0 <= k < old(buf)@.len() ==> #[trigger] final(buf)@[k] == if dst <= k < dst + n {
                old(buf)@[k - dst + src]
            } else if src <= k < src + n {
                None
            } else {
                old(buf)@[k]
            },
{
    let ghost pre = buf@;
    let len = buf.len();
    let mut t: usize = 0;
    while t < n
        invariant
            buf@.len() == pre.len(),
            pre.len() == len,
            t <= n,
            src + n <= dst || dst + n <= src,
            src + n <= pre.len(),
            dst + n <= pre.len(),
            forall|k: int| dst <= k < dst + n ==> #[trigger] pre[k] is None,
            forall|k: int|
                0 <= k < pre.len() ==> #[trigger] buf@[k] == if dst <= k < dst + t {
                    pre[k - dst + src]
                } else if src <= k < src + t {
                    None
                } else {
                    pre[k]
                },
        decreases n - t,
    {
        swap_cells(buf, src + t, dst + t);
        t += 1;
    }
}

/// Reverses the order of the cells in `lo..hi`.
pub(crate) fn reverse_cells<T>(buf: &mut std::vec::Vec<Option<T>>, lo: usize, hi: usize)
    requires
        lo <= hi <= old(buf)@.len(),
    ensures
        final(buf)@.len() == old(buf)@.len(),
        forall|k: int|
            0 <= k < old(buf)@.len() ==> #[trigger] final(buf)@[k] == if lo <= k < hi {
                old(buf)@[lo + hi - 1 - k]
            } else {
                old(buf)@[k]
            },
{
    let ghost pre = buf@;
    if lo == hi {
        return ;
    }
    let mut i: usize = lo;
    let mut j: usize = hi - 1;
    while i < j
        invariant
            buf@.len() == pre.len(),
            lo <= i <= j + 1,
            j < hi <= pre.len(),
            i + j == lo + hi - 1,
            forall|k: int|
                0 <= k < pre.len() ==> #[trigger] buf@[k] == if (lo <= k < i) || (j < k < hi) {
                    pre[lo + hi - 1 - k]
                } else {
                    pre[k]
                },
        decreases hi - i,
    {
        swap_cells(buf, i, j);
        i += 1;
        j -= 1;
    }
}

/// Rotates the cells in `lo..hi` left by `m` places.
pub(crate) fn rotate_left_cells<T>(buf: &mut std::vec::Vec<Option<T>>, lo: usize, hi: usize, m: usize)
    requires
        lo <= hi <= old(buf)@.len(),
        m <= hi - lo,
    ensures
        final(buf)@.len() == old(buf)@.len(),
        forall|k: int|
            0 <= k < old(buf)@.len() ==> #[trigger] final(buf)@[k] == if lo <= k < hi - m {
                old(buf)@[k + m]
            } else if hi - m <= k < hi {
                old(buf)@[k - (hi - lo - m)]
            } else {
                old(buf)@[k]
            },
{
    let ghost pre = buf@;
    reverse_cells(buf, lo, lo + m);
    let ghost one = buf@;
    reverse_cells(buf, lo + m, hi);
    let ghost two = buf@;
    reverse_cells(buf, lo, hi);
    assert forall|k: int| 0 <= k < pre.len() implies #[trigger] buf@[k] == if lo <= k < hi - m {
        pre[k + m]
    } else if hi - m <= k < hi {
        pre[k - (hi - lo - m)]
    } else {
        pre[k]
    } by {
        if lo <= k < hi {
            let r = lo + hi - 1 - k;
            assert(buf@[k] == two[r]);
            if r < lo + m {
                assert(two[r] == one[r]);
                assert(one[r] == pre[lo + lo + m - 1 - r]);
            } else {
                assert(two[r] == one[lo + m + hi - 1 - r]);
            }
        }
    }
}

} // verus!
