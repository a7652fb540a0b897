//! Connected components of a grid of cells.
//!
//! A grid of `w * h` cells is stored row by row. Cells that are switched on and
//! touch each other, by an edge or (where `diagonal` is set) by a corner too,
//! belong to one component. Components are numbered from one, in the order of
//! their first cells.

use vstd::arithmetic::div_mod::lemma_fundamental_div_mod;
use vstd::arithmetic::div_mod::lemma_fundamental_div_mod_converse;
use vstd::prelude::*;

verus! {

/// Two distinct cells of a grid touch each other.
pub open spec fn adjacent(w: int, h: int, diagonal: bool, a: int, b: int) -> bool {
    &&& 0 <= a < w * h
    &&& 0 <= b < w * h
    &&& a != b
    &&& -1 <= a % w - b % w <= 1
    &&& -1 <= a / w - b / w <= 1
    &&& (diagonal || a % w == b % w || a / w == b / w)
}

/// A path of `n` steps over cells that are on leads from `a` to `b`.
pub open spec fn reaches(
    on: Seq<bool>,
    w: int,
    h: int,
    diagonal: bool,
    a: int,
    b: int,
    n: nat,
) -> bool
    decreases n,
{
    &&& 0 <= b < on.len()
    &&& on[b]
    &&& if n == 0 {
        a == b
    } else {
        exists|m: int|
            #[trigger] adjacent(w, h, diagonal, m, b) && reaches(on, w, h, diagonal, a, m, (n - 1) as nat)
    }
}

/// Some path over cells that are on leads from `a` to `b`.
pub open spec fn connected(on: Seq<bool>, w: int, h: int, diagonal: bool, a: int, b: int) -> bool {
    exists|n: nat| reaches(on, w, h, diagonal, a, b, n)
}

/// Touching cells that are on carry one label, once one of them has any.
pub open spec fn closed_under(
    on: Seq<bool>,
    w: int,
    h: int,
    diagonal: bool,
    labels: Seq<usize>,
) -> bool {
    forall|a: int, b: int|
        #![trigger adjacent(w, h, diagonal, a, b)]
        adjacent(w, h, diagonal, a, b) && on[a] && on[b] && labels[a] != 0 ==> labels[b]
            == labels[a]
}

/// `labels` numbers the components of `on`, and `firsts` holds their first cells.
pub open spec fn numbers_components(
    on: Seq<bool>,
    w: int,
    h: int,
    diagonal: bool,
    labels: Seq<usize>,
    firsts: Seq<usize>,
) -> bool {
    &&& labels.len() == on.len()
    &&& forall|i: int|
        0 <= i < on.len() ==> (#[trigger] labels[i] != 0 <==> on[i]) && labels[i] <= firsts.len()
    &&& forall|l: int|
        0 <= l < firsts.len() ==> #[trigger] firsts[l] < on.len() && labels[firsts[l] as int] == l
            + 1
    &&& forall|k: int, l: int|
        0 <= k < l < firsts.len() ==> #[trigger] firsts[k] < #[trigger] firsts[l]
    &&& forall|i: int|
        0 <= i < on.len() && #[trigger] labels[i] != 0 ==> firsts[labels[i] - 1] <= i && connected(
            on,
            w,
            h,
            diagonal,
            firsts[labels[i] - 1] as int,
            i,
        )
    &&& closed_under(on, w, h, diagonal, labels)
}

/// The numbering of the components of a grid.
pub struct Components {
    /// The component of each cell, counted from one; zero where the cell is off.
    pub labels: Vec<usize>,
    /// The first cell of each component.
    pub firsts: Vec<usize>,
}

proof fn lemma_adjacent_sym(w: int, h: int, diagonal: bool, a: int, b: int)
    ensures
        adjacent(w, h, diagonal, a, b) == adjacent(w, h, diagonal, b, a),
{
}

proof fn lemma_path_label(
    on: Seq<bool>,
    w: int,
    h: int,
    diagonal: bool,
    labels: Seq<usize>,
    a: int,
    b: int,
    n: nat,
)
    requires
        closed_under(on, w, h, diagonal, labels),
        0 <= a < on.len(),
        on[a],
        labels[a] != 0,
        on.len() == w * h,
        reaches(on, w, h, diagonal, a, b, n),
    ensures
        labels[b] == labels[a],
    decreases n,
{
    if n > 0 {
        let m = choose|m: int|
            #[trigger] adjacent(w, h, diagonal, m, b) && reaches(on, w, h, diagonal, a, m, (n - 1) as nat);
        lemma_path_label(on, w, h, diagonal, labels, a, m, (n - 1) as nat);
    }
}

proof fn lemma_prepend(
    on: Seq<bool>,
    w: int,
    h: int,
    diagonal: bool,
    a: int,
    c: int,
    b: int,
    n: nat,
)
    requires
        0 <= a < on.len(),
        on[a],
        adjacent(w, h, diagonal, a, c),
        reaches(on, w, h, diagonal, c, b, n),
    ensures
        reaches(on, w, h, diagonal, a, b, n + 1),
    decreases n,
{
    if n == 0 {
        assert(reaches(on, w, h, diagonal, a, a, 0));
    } else {
        let m = choose|m: int|
            #[trigger] adjacent(w, h, diagonal, m, b) && reaches(on, w, h, diagonal, c, m, (n - 1) as nat);
        lemma_prepend(on, w, h, diagonal, a, c, m, (n - 1) as nat);
        assert(reaches(on, w, h, diagonal, a, m, n));
    }
}

proof fn lemma_path_back(
    on: Seq<bool>,
    w: int,
    h: int,
    diagonal: bool,
    a: int,
    b: int,
    n: nat,
)
    requires
        0 <= a < on.len(),
        on[a],
        reaches(on, w, h, diagonal, a, b, n),
    ensures
        reaches(on, w, h, diagonal, b, a, n),
    decreases n,
{
    if n > 0 {
        let m = choose|m: int|
            #[trigger] adjacent(w, h, diagonal, m, b) && reaches(on, w, h, diagonal, a, m, (n - 1) as nat);
        lemma_path_back(on, w, h, diagonal, a, m, (n - 1) as nat);
        lemma_adjacent_sym(w, h, diagonal, m, b);
        lemma_prepend(on, w, h, diagonal, b, m, a, (n - 1) as nat);
    }
}

proof fn lemma_path_join(
    on: Seq<bool>,
    w: int,
    h: int,
    diagonal: bool,
    a: int,
    c: int,
    b: int,
    n: nat,
    k: nat,
)
    requires
        reaches(on, w, h, diagonal, a, c, n),
        reaches(on, w, h, diagonal, c, b, k),
    ensures
        reaches(on, w, h, diagonal, a, b, n + k),
    decreases k,
{
    if k > 0 {
        let m = choose|m: int|
            #[trigger] adjacent(w, h, diagonal, m, b) && reaches(on, w, h, diagonal, c, m, (k - 1) as nat);
        lemma_path_join(on, w, h, diagonal, a, c, m, n, (k - 1) as nat);
        assert(reaches(on, w, h, diagonal, a, m, (n + k - 1) as nat));
    }
}

/// Two cells that are on carry the same number exactly if a path joins them.
pub proof fn law_same_component(
    on: Seq<bool>,
    w: int,
    h: int,
    diagonal: bool,
    labels: Seq<usize>,
    firsts: Seq<usize>,
    a: int,
    b: int,
)
    requires
        on.len() == w * h,
        numbers_components(on, w, h, diagonal, labels, firsts),
        0 <= a < on.len(),
        0 <= b < on.len(),
        on[a],
        on[b],
    ensures
        labels[a] == labels[b] <==> connected(on, w, h, diagonal, a, b),
{
    if connected(on, w, h, diagonal, a, b) {
        let n = choose|n: nat| reaches(on, w, h, diagonal, a, b, n);
        lemma_path_label(on, w, h, diagonal, labels, a, b, n);
    }
    if labels[a] == labels[b] {
        let s = firsts[labels[a] - 1] as int;
        assert(labels[s] != 0);
        let n = choose|n: nat| reaches(on, w, h, diagonal, s, a, n);
        let k = choose|k: nat| reaches(on, w, h, diagonal, s, b, k);
        lemma_path_back(on, w, h, diagonal, s, a, n);
        lemma_path_join(on, w, h, diagonal, a, s, b, n, k);
    }
}

/// The position of a cell given by its column and row.
pub proof fn lemma_cell(w: int, h: int, x: int, y: int)
    requires
        0 <= x < w,
        0 <= y < h,
    ensures
        0 <= y * w + x < w * h,
        (y * w + x) % w == x,
        (y * w + x) / w == y,
{
    assert(y * w + x < w * h) by (nonlinear_arith)
        requires
            0 <= x < w,
            0 <= y < h,
    ;
    assert(y * w >= 0) by (nonlinear_arith)
        requires
            0 <= w,
            0 <= y,
    ;
    lemma_fundamental_div_mod_converse(y * w + x, w, y, x);
}

/// The column and row of a cell.
pub proof fn lemma_cell_coords(w: int, h: int, c: int)
    requires
        0 <= c < w * h,
        0 <= w,
        0 <= h,
    ensures
        0 < w,
        0 <= c % w < w,
        0 <= c / w < h,
        c == (c / w) * w + c % w,
{
    assert(w > 0) by (nonlinear_arith)
        requires
            0 <= c < w * h,
            0 <= w,
    ;
    lemma_fundamental_div_mod(c, w);
    assert(w * (c / w) == (c / w) * w) by (nonlinear_arith);
    assert(0 <= c / w && c % w < w && 0 <= c % w) by (nonlinear_arith)
        requires
            0 <= c,
            w > 0,
    ;
    assert(c / w < h) by (nonlinear_arith)
        requires
            c == (c / w) * w + c % w,
            0 <= c % w,
            c < w * h,
            w > 0,
    ;
}

/// The cells that touch a given cell.
pub fn neighbors(w: usize, h: usize, diagonal: bool, c: usize) -> (r: Vec<usize>)
    requires
        c < w * h,
        w * h <= usize::MAX,
    ensures
        forall|k: int| 0 <= k < r.len() ==> #[trigger] r@[k] < w * h,
        forall|b: int|
            0 <= b < w * h ==> (adjacent(w as int, h as int, diagonal, c as int, b)
                <==> r@.contains(#[trigger] (b as usize))),
{
    proof {
        lemma_cell_coords(w as int, h as int, c as int);
    }
    let x: usize = c % w;
    let y: usize = c / w;
    let x0: usize = if x > 0 {
        x - 1
    } else {
        0
    };
    let x1: usize = if x < w - 1 {
        x + 2
    } else {
        x + 1
    };
    let y0: usize = if y > 0 {
        y - 1
    } else {
        0
    };
    let y1: usize = if y < h - 1 {
        y + 2
    } else {
        y + 1
    };
    let mut r: Vec<usize> = Vec::new();
    let mut ny: usize = y0;
    while ny < y1
        invariant
            w * h <= usize::MAX,
            c < w * h,
            x == c % w,
            y == c / w,
            x < w,
            y < h,
            x0 == (if x > 0 {
                x - 1
            } else {
                0
            }),
            y0 == (if y > 0 {
                y - 1
            } else {
                0
            }),
            x1 == (if x < w - 1 {
                x + 2
            } else {
                x + 1
            }),
            y1 == (if y < h - 1 {
                y + 2
            } else {
                y + 1
            }),
            y0 <= ny <= y1,
            forall|k: int| 0 <= k < r.len() ==> #[trigger] r@[k] < w * h,
            forall|b: int|
                0 <= b < w * h ==> ((adjacent(w as int, h as int, diagonal, c as int, b) && b
                    / (w as int) < ny) <==> r@.contains(#[trigger] (b as usize))),
        decreases y1 - ny,
    {
        let mut nx: usize = x0;
        while nx < x1
            invariant
                w * h <= usize::MAX,
                c < w * h,
                x == c % w,
                y == c / w,
                x < w,
                y < h,
                x0 == (if x > 0 {
                    x - 1
                } else {
                    0
                }),
                x1 == (if x < w - 1 {
                    x + 2
                } else {
                    x + 1
                }),
                y0 == (if y > 0 {
                    y - 1
                } else {
                    0
                }),
                y1 == (if y < h - 1 {
                    y + 2
                } else {
                    y + 1
                }),
                y0 <= ny < y1,
                x0 <= nx <= x1,
                forall|k: int| 0 <= k < r.len() ==> #[trigger] r@[k] < w * h,
                forall|b: int|
                    0 <= b < w * h ==> ((adjacent(w as int, h as int, diagonal, c as int, b) && (b
                        / (w as int) < ny || (b / (w as int) == ny && b % (w as int) < nx)))
                        <==> r@.contains(#[trigger] (b as usize))),
            decreases x1 - nx,
        {
            proof {
                lemma_cell(w as int, h as int, nx as int, ny as int);
                lemma_cell_coords(w as int, h as int, c as int);
                assert(ny * w <= ny * w + nx);
            }
            let ghost prev = r@;
            let n: usize = ny * w + nx;
            if n != c && (diagonal || nx == x || ny == y) {
                r.push(n);
                proof {
                    assert(r@[prev.len() as int] == n);
                }
            }
            proof {
                assert forall|b: int| 0 <= b < w * h implies ((adjacent(
                    w as int,
                    h as int,
                    diagonal,
                    c as int,
                    b,
                ) && (b / (w as int) < ny || (b / (w as int) == ny && b % (w as int) < nx + 1)))
                    <==> r@.contains(#[trigger] (b as usize))) by {
                    lemma_cell_coords(w as int, h as int, b);
                    if prev.contains(b as usize) {
                        let k = choose|k: int| 0 <= k < prev.len() && prev[k] == b as usize;
                        assert(r@[k] == b as usize);
                    }
                    if r@.contains(b as usize) && !prev.contains(b as usize) {
                        let k = choose|k: int| 0 <= k < r@.len() && r@[k] == b as usize;
                        if k < prev.len() {
                            assert(prev[k] == b as usize);
                        }
                    }
                }
            }
            nx += 1;
        }
        proof {
            assert forall|b: int| 0 <= b < w * h implies ((adjacent(
                w as int,
                h as int,
                diagonal,
                c as int,
                b,
            ) && b / (w as int) < ny + 1) <==> r@.contains(#[trigger] (b as usize))) by {
                lemma_cell_coords(w as int, h as int, b);
            }
        }
        ny += 1;
    }
    proof {
        assert forall|b: int| 0 <= b < w * h implies (adjacent(
            w as int,
            h as int,
            diagonal,
            c as int,
            b,
        ) <==> r@.contains(#[trigger] (b as usize))) by {
            lemma_cell_coords(w as int, h as int, b);
        }
    }
    r
}

/// The number of zeros among the first `n` labels.
spec fn zeros(labels: Seq<usize>, n: nat) -> nat
    decreases n,
{
    if n == 0 {
        0
    } else {
        zeros(labels, (n - 1) as nat) + if labels[n - 1] == 0 {
            1nat
        } else {
            0nat
        }
    }
}

proof fn lemma_zeros_update(labels: Seq<usize>, i: int, v: usize, n: nat)
    requires
        0 <= i < labels.len(),
        labels[i] == 0,
        v != 0,
        n <= labels.len(),
    ensures
        zeros(labels.update(i, v), n) == zeros(labels, n) - (if i < n {
            1int
        } else {
            0int
        }),
    decreases n,
{
    if n > 0 {
        lemma_zeros_update(labels, i, v, (n - 1) as nat);
    }
}

/// Spreads a label from a seed over everything the seed reaches.
fn fill(
    on: &Vec<bool>,
    w: usize,
    h: usize,
    diagonal: bool,
    labels: &mut Vec<usize>,
    seed: usize,
    label: usize,
)
    requires
        w * h == on.len(),
        old(labels).len() == on.len(),
        seed < on.len(),
        on[seed as int],
        old(labels)@[seed as int] == 0,
        label != 0,
        forall|i: int|
            0 <= i < on.len() ==> #[trigger] old(labels)@[i] != label && (old(labels)@[i] != 0
                ==> on[i]),
        closed_under(on@, w as int, h as int, diagonal, old(labels)@),
    ensures
        final(labels).len() == on.len(),
        final(labels)@[seed as int] == label,
        forall|i: int|
            0 <= i < on.len() ==> (#[trigger] final(labels)@[i] == old(labels)@[i] || (old(
                labels,
            )@[i] == 0 && final(labels)@[i] == label)),
        forall|i: int|
            0 <= i < on.len() && #[trigger] final(labels)@[i] == label ==> on[i] && connected(
                on@,
                w as int,
                h as int,
                diagonal,
                seed as int,
                i,
            ),
        closed_under(on@, w as int, h as int, diagonal, final(labels)@),
{
    let ghost before = labels@;
    let ghost wi = w as int;
    let ghost hi = h as int;
    labels.set(seed, label);
    let mut stack: Vec<usize> = Vec::new();
    stack.push(seed);
    proof {
        assert(reaches(on@, wi, hi, diagonal, seed as int, seed as int, 0));
        assert(stack@[0] == seed);
        assert(stack@.contains(seed));
    }
    while stack.len() > 0
        invariant
            w * h == on.len(),
            wi == w,
            hi == h,
            labels.len() == on.len(),
            before.len() == on.len(),
            seed < on.len(),
            label != 0,
            labels@[seed as int] == label,
            forall|i: int|
                0 <= i < on.len() ==> #[trigger] before[i] != label && (before[i] != 0 ==> on[i]),
            closed_under(on@, wi, hi, diagonal, before),
            forall|k: int|
                0 <= k < stack.len() ==> #[trigger] stack@[k] < on.len()
                    && labels@[stack@[k] as int] == label,
            forall|i: int|
                0 <= i < on.len() ==> (#[trigger] labels@[i] == before[i] || (before[i] == 0
                    && labels@[i] == label)),
            forall|i: int|
                0 <= i < on.len() && #[trigger] labels@[i] == label ==> on[i] && connected(
                    on@,
                    wi,
                    hi,
                    diagonal,
                    seed as int,
                    i,
                ),
            forall|a: int, b: int|
                #![trigger adjacent(wi, hi, diagonal, a, b)]
                adjacent(wi, hi, diagonal, a, b) && on[a] && on[b] && labels@[a] == label
                    && !stack@.contains(a as usize) ==> labels@[b] == label,
        decreases zeros(labels@, labels@.len()), stack.len(),
    {
        let ghost stack_before = stack@;
        let c: usize = stack.pop().unwrap();
        proof {
            assert(stack_before[stack_before.len() - 1] == c);
            assert(labels@[c as int] == label);
        }
        let near = neighbors(w, h, diagonal, c);
        let ghost zeros_before = zeros(labels@, labels@.len());
        let ghost stack_popped = stack@;
        proof {
            assert forall|u: usize| stack_before.contains(u) && u != c implies stack@.contains(u) by {
                let q = choose|q: int| 0 <= q < stack_before.len() && stack_before[q] == u;
                assert(stack@[q] == u);
            }
        }
        let mut k: usize = 0;
        while k < near.len()
            invariant
                w * h == on.len(),
                wi == w,
                hi == h,
                labels.len() == on.len(),
                before.len() == on.len(),
                seed < on.len(),
                label != 0,
                c < on.len(),
                k <= near.len(),
                labels@[seed as int] == label,
                labels@[c as int] == label,
                forall|i: int|
                    0 <= i < on.len() ==> #[trigger] before[i] != label && (before[i] != 0
                        ==> on[i]),
                closed_under(on@, wi, hi, diagonal, before),
                forall|j: int| 0 <= j < near.len() ==> #[trigger] near@[j] < w * h,
                forall|b: int|
                    0 <= b < w * h ==> (adjacent(wi, hi, diagonal, c as int, b)
                        <==> near@.contains(#[trigger] (b as usize))),
                forall|j: int|
                    0 <= j < stack.len() ==> #[trigger] stack@[j] < on.len()
                        && labels@[stack@[j] as int] == label,
                forall|i: int|
                    0 <= i < on.len() ==> (#[trigger] labels@[i] == before[i] || (before[i] == 0
                        && labels@[i] == label)),
                forall|i: int|
                    0 <= i < on.len() && #[trigger] labels@[i] == label ==> on[i] && connected(
                        on@,
                        wi,
                        hi,
                        diagonal,
                        seed as int,
                        i,
                    ),
                forall|j: int|
                    0 <= j < k && on[near@[j] as int] ==> labels@[#[trigger] near@[j] as int]
                        == label,
                forall|a: int, b: int|
                    #![trigger adjacent(wi, hi, diagonal, a, b)]
                    adjacent(wi, hi, diagonal, a, b) && on[a] && on[b] && labels@[a] == label && a
                        != c && !stack@.contains(a as usize) ==> labels@[b] == label,
                zeros(labels@, labels@.len()) <= zeros_before,
                zeros(labels@, labels@.len()) == zeros_before ==> stack@ == stack_popped,
            decreases near.len() - k,
        {
            let n: usize = near[k];
            proof {
                assert(near@.contains((n as int) as usize));
                assert(adjacent(wi, hi, diagonal, c as int, n as int));
                lemma_adjacent_sym(wi, hi, diagonal, c as int, n as int);
                // A neighbour labelled earlier would have spread to this cell.
                if before[n as int] != 0 && on[n as int] {
                    assert(before[c as int] == before[n as int]);
                    assert(labels@[c as int] == before[c as int]);
                }
            }
            if on[n] && labels[n] == 0 {
                proof {
                    let p = choose|p: nat| reaches(on@, wi, hi, diagonal, seed as int, c as int, p);
                    assert((p + 1 - 1) as nat == p);
                    assert(reaches(on@, wi, hi, diagonal, seed as int, n as int, p + 1));
                    lemma_zeros_update(labels@, n as int, label, labels@.len());
                }
                let ghost old_stack = stack@;
                labels.set(n, label);
                stack.push(n);
                proof {
                    assert(stack@[old_stack.len() as int] == n);
                    assert forall|u: usize| old_stack.contains(u) implies stack@.contains(u) by {
                        let q = choose|q: int| 0 <= q < old_stack.len() && old_stack[q] == u;
                        assert(stack@[q] == u);
                    }
                }
            }
            k += 1;
        }
        proof {
            assert forall|a: int, b: int|
                #![trigger adjacent(wi, hi, diagonal, a, b)]
                adjacent(wi, hi, diagonal, a, b) && on[a] && on[b] && labels@[a] == label
                    && !stack@.contains(a as usize) implies labels@[b] == label by {
                if a == c {
                    assert(near@.contains(b as usize));
                    let j = choose|j: int| 0 <= j < near.len() && near@[j] == b as usize;
                    assert(labels@[near@[j] as int] == label);
                }
            }
        }
    }
    proof {
        assert forall|a: int, b: int|
            #![trigger adjacent(wi, hi, diagonal, a, b)]
            adjacent(wi, hi, diagonal, a, b) && on[a] && on[b] && labels@[a] != 0 implies labels@[b]
            == labels@[a] by {
            lemma_adjacent_sym(wi, hi, diagonal, a, b);
            assert(adjacent(wi, hi, diagonal, b, a));
            if labels@[a] != label {
                assert(before[b] == before[a]);
            }
        }
    }
}

/// Numbers the connected components of a grid.
pub fn label_components(on: &Vec<bool>, w: usize, h: usize, diagonal: bool) -> (r: Components)
    requires
        w * h == on.len(),
    ensures
        numbers_components(on@, w as int, h as int, diagonal, r.labels@, r.firsts@),
        (r.labels@, r.firsts@) == numbering_of(on@, w as int, h as int, diagonal),
{
    let mut labels: Vec<usize> = vec![0; on.len()];
    let mut firsts: Vec<usize> = Vec::new();
    let mut i: usize = 0;
    while i < on.len()
        invariant
            w * h == on.len(),
            i <= on.len(),
            labels.len() == on.len(),
            firsts.len() <= i,
            forall|j: int|
                0 <= j < on.len() ==> (#[trigger] labels@[j] != 0 ==> on[j]) && labels@[j]
                    <= firsts.len(),
            forall|j: int| 0 <= j < i && on[j] ==> #[trigger] labels@[j] != 0,
            forall|l: int|
                0 <= l < firsts.len() ==> #[trigger] firsts@[l] < i && labels@[firsts@[l] as int]
                    == l + 1,
            forall|k: int, l: int|
                0 <= k < l < firsts.len() ==> #[trigger] firsts@[k] < #[trigger] firsts@[l],
            forall|j: int|
                0 <= j < on.len() && #[trigger] labels@[j] != 0 ==> firsts@[labels@[j] - 1] <= j
                    && connected(
                    on@,
                    w as int,
                    h as int,
                    diagonal,
                    firsts@[labels@[j] - 1] as int,
                    j,
                ),
            closed_under(on@, w as int, h as int, diagonal, labels@),
        decreases on.len() - i,
    {
        if on[i] && labels[i] == 0 {
            let ghost labels_before = labels@;
            let ghost firsts_before = firsts@;
            firsts.push(i);
            let label: usize = firsts.len();
            fill(on, w, h, diagonal, &mut labels, i, label);
            proof {
                assert forall|l: int| 0 <= l < firsts.len() implies #[trigger] firsts@[l] < i + 1
                    && labels@[firsts@[l] as int] == l + 1 by {
                    if l < firsts_before.len() {
                        assert(firsts_before[l] == firsts@[l]);
                        assert(labels_before[firsts_before[l] as int] == l + 1);
                    }
                }
                assert forall|j: int| 0 <= j < on.len() && #[trigger] labels@[j] != 0 implies firsts@[labels@[j]
                    - 1] <= j && connected(
                    on@,
                    w as int,
                    h as int,
                    diagonal,
                    firsts@[labels@[j] - 1] as int,
                    j,
                ) by {
                    if labels@[j] == label {
                        assert(labels_before[j] == 0 || labels_before[j] == label);
                        assert(labels_before[j] == 0);
                        assert(j >= i);
                    } else {
                        assert(labels_before[j] == labels@[j]);
                        assert(firsts_before[labels@[j] - 1] == firsts@[labels@[j] - 1]);
                    }
                }
                assert forall|j: int| 0 <= j < i + 1 && on[j] implies #[trigger] labels@[j] != 0 by {
                    assert(labels@[j] == labels_before[j] || labels@[j] == label);
                }
            }
        }
        i += 1;
    }
    proof {
        let n = (labels@, firsts@);
        assert(numbering(on@, w as int, h as int, diagonal, n));
        law_numbering_unique(
            on@,
            w as int,
            h as int,
            diagonal,
            n,
            numbering_of(on@, w as int, h as int, diagonal),
        );
    }
    Components { labels, firsts }
}

/// Some pair of vectors numbers the components of `on`.
pub open spec fn numbering(
    on: Seq<bool>,
    w: int,
    h: int,
    diagonal: bool,
    n: (Seq<usize>, Seq<usize>),
) -> bool {
    numbers_components(on, w, h, diagonal, n.0, n.1)
}

/// The component number of each cell, and the first cell of each component.
pub open spec fn numbering_of(on: Seq<bool>, w: int, h: int, diagonal: bool) -> (
    Seq<usize>,
    Seq<usize>,
) {
    choose|n: (Seq<usize>, Seq<usize>)| numbering(on, w, h, diagonal, n)
}

proof fn lemma_same_first(
    on: Seq<bool>,
    w: int,
    h: int,
    diagonal: bool,
    a: (Seq<usize>, Seq<usize>),
    b: (Seq<usize>, Seq<usize>),
    i: int,
)
    requires
        on.len() == w * h,
        numbering(on, w, h, diagonal, a),
        numbering(on, w, h, diagonal, b),
        0 <= i < on.len(),
        on[i],
    ensures
        a.1[a.0[i] - 1] <= b.1[b.0[i] - 1],
{
    assert(a.0[i] != 0);
    assert(b.0[i] != 0);
    let s = a.1[a.0[i] - 1] as int;
    let t = b.1[b.0[i] - 1] as int;
    assert(b.0[t] != 0);
    assert(on[t]);
    assert(a.0[t] != 0);
    law_same_component(on, w, h, diagonal, b.0, b.1, t, i);
    law_same_component(on, w, h, diagonal, a.0, a.1, t, i);
    assert(a.0[t] == a.0[i]);
}

proof fn lemma_firsts_agree(
    on: Seq<bool>,
    w: int,
    h: int,
    diagonal: bool,
    a: (Seq<usize>, Seq<usize>),
    b: (Seq<usize>, Seq<usize>),
    n: nat,
)
    requires
        on.len() == w * h,
        numbering(on, w, h, diagonal, a),
        numbering(on, w, h, diagonal, b),
        n <= a.1.len(),
    ensures
        n <= b.1.len(),
        forall|l: int| 0 <= l < n ==> a.1[l] == b.1[l],
    decreases n,
{
    if n > 0 {
        let m = n - 1;
        lemma_firsts_agree(on, w, h, diagonal, a, b, m as nat);
        let s = a.1[m] as int;
        assert(a.0[s] == m + 1);
        assert(on[s]);
        assert(b.0[s] != 0);
        lemma_same_first(on, w, h, diagonal, a, b, s);
        lemma_same_first(on, w, h, diagonal, b, a, s);
        let k = b.0[s] - 1;
        assert(b.1[k] == s);
        if k < m {
            assert(a.1[k] == b.1[k]);
            assert(a.1[k] < a.1[m]);
        }
        if k > m {
            let t = b.1[m] as int;
            assert(b.0[t] == m + 1);
            assert(on[t]);
            assert(a.0[t] != 0);
            lemma_same_first(on, w, h, diagonal, a, b, t);
            lemma_same_first(on, w, h, diagonal, b, a, t);
            let q = a.0[t] - 1;
            assert(a.1[q] == t);
            assert(b.1[m] < b.1[k]);
            assert(t < s);
            if q >= m {
                if q > m {
                    assert(a.1[m] < a.1[q]);
                }
            } else {
                assert(a.1[q] == b.1[q]);
                assert(b.1[q] < b.1[m]);
            }
        }
    }
}

/// The numbering of the components of a grid is unique.
pub proof fn law_numbering_unique(
    on: Seq<bool>,
    w: int,
    h: int,
    diagonal: bool,
    a: (Seq<usize>, Seq<usize>),
    b: (Seq<usize>, Seq<usize>),
)
    requires
        on.len() == w * h,
        numbering(on, w, h, diagonal, a),
        numbering(on, w, h, diagonal, b),
    ensures
        a == b,
{
    lemma_firsts_agree(on, w, h, diagonal, a, b, a.1.len());
    lemma_firsts_agree(on, w, h, diagonal, b, a, b.1.len());
    assert(a.1 =~= b.1);
    assert forall|i: int| 0 <= i < on.len() implies a.0[i] == b.0[i] by {
        if on[i] {
            assert(a.0[i] != 0);
            assert(b.0[i] != 0);
            lemma_same_first(on, w, h, diagonal, a, b, i);
            lemma_same_first(on, w, h, diagonal, b, a, i);
            if a.0[i] < b.0[i] {
                assert(a.1[a.0[i] - 1] < a.1[b.0[i] - 1]);
            }
            if a.0[i] > b.0[i] {
                assert(a.1[b.0[i] - 1] < a.1[a.0[i] - 1]);
            }
        } else {
            assert(!(a.0[i] != 0));
            assert(!(b.0[i] != 0));
        }
    }
    assert(a.0 =~= b.0);
}

/// Cells are adjacent by a side where they share a row and their columns follow each other, or
/// share a column and their rows do; with corners, where they differ by one at most in both.
pub proof fn law_adjacent(w: int, h: int, a: int, b: int)
    requires
        0 <= a < w * h,
        0 <= b < w * h,
    ensures
        adjacent(w, h, false, a, b) <==> (a / w == b / w && (a % w == b % w + 1 || b % w == a % w
            + 1)) || (a % w == b % w && (a / w == b / w + 1 || b / w == a / w + 1)),
        adjacent(w, h, true, a, b) <==> a != b && a % w <= b % w + 1 && b % w <= a % w + 1 && a / w
            <= b / w + 1 && b / w <= a / w + 1,
        adjacent(w, h, false, a, b) ==> adjacent(w, h, true, a, b),
        adjacent(w, h, true, a, b) == adjacent(w, h, true, b, a),
{
    assert(w != 0) by (nonlinear_arith)
        requires
            0 <= a < w * h,
    ;
    vstd::arithmetic::div_mod::lemma_fundamental_div_mod(a, w);
    vstd::arithmetic::div_mod::lemma_fundamental_div_mod(b, w);
}

} // verus!
