//! The widgets of the windows, and the order in which one goes around
//! them from one of them.

use vstd::prelude::*;

verus! {

/// The widgets of the first `n` windows, each with the index of its
/// window and its own index in it, where `counts` holds the number of
/// widgets of each window.
pub open spec fn flat(counts: Seq<usize>, n: int) -> Seq<(usize, usize)>
    decreases n,
{
    if n <= 0 || n > counts.len() {
        Seq::empty()
    } else {
        flat(counts, n - 1) + Seq::new(
            counts[n - 1] as nat,
            |k: int| ((n - 1) as usize, k as usize),
        )
    }
}

/// The number of widgets of the first `n` windows.
pub open spec fn total(counts: Seq<usize>, n: int) -> int
    decreases n,
{
    if n <= 0 || n > counts.len() {
        0
    } else {
        total(counts, n - 1) + counts[n - 1]
    }
}

/// The widgets around the widget `widget` of the window `window`, from
/// the one after it to the last, and then from the first to the one
/// before it.
pub open spec fn around(counts: Seq<usize>, window: int, widget: int) -> Seq<(usize, usize)> {
    let all = flat(counts, counts.len() as int);
    let at = total(counts, window) + widget;
    all.skip(at + 1) + all.take(at)
}

/// The widgets around the widget `widget` of the window `window`,
/// backwards: from the one before it to the first, and then from the last
/// to the one after it.
pub open spec fn around_rev(counts: Seq<usize>, window: int, widget: int) -> Seq<(usize, usize)> {
    let all = flat(counts, counts.len() as int);
    let at = total(counts, window) + widget;
    all.take(at).reverse() + all.skip(at + 1).reverse()
}

/// There are as many widgets as the windows have, and no fewer in more
/// windows.
pub proof fn lemma_flat_len(counts: Seq<usize>, a: int, b: int)
    requires
        0 <= a <= b <= counts.len(),
    ensures
        flat(counts, a).len() == total(counts, a),
        0 <= total(counts, a) <= total(counts, b),
    decreases b,
{
    if a < b {
        lemma_flat_len(counts, a, b - 1);
    } else if a > 0 {
        lemma_flat_len(counts, a - 1, a - 1);
    }
}

/// The widgets of all windows, each with the index of its window and its
/// own index in it.
pub fn all_widgets(counts: &Vec<usize>) -> (r: Vec<(usize, usize)>)
    requires
        total(counts@, counts@.len() as int) <= usize::MAX,
    ensures
        r@ == flat(counts@, counts@.len() as int),
{
    let mut out: Vec<(usize, usize)> = Vec::new();
    let mut i: usize = 0;
    while i < counts.len()
        invariant
            i <= counts@.len(),
            out@ == flat(counts@, i as int),
        decreases counts.len() - i,
    {
        let n = counts[i];
        let ghost before = out@;
        let mut k: usize = 0;
        while k < n
            invariant
                k <= n,
                i < counts@.len(),
                n == counts@[i as int],
                out@ == before + Seq::new(k as nat, |j: int| (i, j as usize)),
            decreases n - k,
        {
            out.push((i, k));
            k += 1;
            assert(out@ =~= before + Seq::new(k as nat, |j: int| (i, j as usize)));
        }
        i += 1;
        assert(out@ =~= flat(counts@, i as int));
    }
    out
}

/// The number of widgets of the windows before `window`.
pub fn widgets_before(counts: &Vec<usize>, window: usize) -> (r: usize)
    requires
        window <= counts@.len(),
        total(counts@, counts@.len() as int) <= usize::MAX,
    ensures
        r == total(counts@, window as int),
{
    let mut sum: usize = 0;
    let mut i: usize = 0;
    while i < window
        invariant
            i <= window <= counts@.len(),
            sum == total(counts@, i as int),
            total(counts@, counts@.len() as int) <= usize::MAX,
        decreases window - i,
    {
        proof {
            lemma_flat_len(counts@, i + 1, counts@.len() as int);
        }
        sum += counts[i];
        i += 1;
    }
    sum
}

/// The widgets around the widget `widget` of the window `window`,
/// forwards.
pub fn iter_around(counts: &Vec<usize>, window: usize, widget: usize) -> (r: Vec<(usize, usize)>)
    requires
        window < counts@.len(),
        widget < counts@[window as int],
        total(counts@, counts@.len() as int) <= usize::MAX,
    ensures
        r@ == around(counts@, window as int, widget as int),
{
    let all = all_widgets(counts);
    proof {
        lemma_flat_len(counts@, window + 1, counts@.len() as int);
        lemma_flat_len(counts@, counts@.len() as int, counts@.len() as int);
    }
    let at = widgets_before(counts, window) + widget;
    let mut out: Vec<(usize, usize)> = Vec::new();
    let mut i: usize = at + 1;
    while i < all.len()
        invariant
            at + 1 <= i <= all@.len(),
            out@ == all@.subrange(at + 1, i as int),
        decreases all.len() - i,
    {
        out.push(all[i]);
        i += 1;
        assert(out@ =~= all@.subrange(at + 1, i as int));
    }
    let ghost first = out@;
    let mut k: usize = 0;
    while k < at
        invariant
            k <= at < all@.len(),
            out@ == first + all@.take(k as int),
        decreases at - k,
    {
        out.push(all[k]);
        k += 1;
        assert(out@ =~= first + all@.take(k as int));
    }
    assert(first =~= all@.skip(at + 1));
    out
}

/// The widgets around the widget `widget` of the window `window`,
/// backwards.
pub fn iter_around_rev(counts: &Vec<usize>, window: usize, widget: usize) -> (r: Vec<
    (usize, usize),
>)
    requires
        window < counts@.len(),
        widget < counts@[window as int],
        total(counts@, counts@.len() as int) <= usize::MAX,
    ensures
        r@ == around_rev(counts@, window as int, widget as int),
{
    let all = all_widgets(counts);
    proof {
        lemma_flat_len(counts@, window + 1, counts@.len() as int);
        lemma_flat_len(counts@, counts@.len() as int, counts@.len() as int);
    }
    let at = widgets_before(counts, window) + widget;
    let mut out: Vec<(usize, usize)> = Vec::new();
    let mut k: usize = at;
    while k > 0
        invariant
            k <= at < all@.len(),
            out@ == all@.subrange(k as int, at as int).reverse(),
        decreases k,
    {
        k -= 1;
        out.push(all[k]);
        assert(out@ =~= all@.subrange(k as int, at as int).reverse());
    }
    let ghost first = out@;
    let mut i: usize = all.len();
    while i > at + 1
        invariant
            at + 1 <= i <= all@.len(),
            out@ == first + all@.subrange(i as int, all@.len() as int).reverse(),
        decreases i,
    {
        i -= 1;
        out.push(all[i]);
        assert(out@ =~= first + all@.subrange(i as int, all@.len() as int).reverse());
    }
    assert(first =~= all@.take(at as int).reverse());
    assert(all@.subrange(at + 1, all@.len() as int) =~= all@.skip(at + 1));
    out
}

} // verus!
