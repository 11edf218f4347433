//! The simplex tableau engine.
//!
//! A `Simplex` holds the constraint rows, the objective row (stored as the
//! last row of the same matrix), the right-hand-side column, and the record
//! of which column is basic in each constraint row.  The engine repeatedly
//! selects a pivot element, performs an exact Gauss-Jordan row reduction,
//! and finally reads the optimal assignment off the terminal tableau.
//!
//! Starting bases that are infeasible (a negative right-hand side) are out
//! of scope: there is no artificial-variable or two-phase start, so callers
//! must deliver a tableau whose right-hand-side column is non-negative.

use vstd::prelude::*;

use crate::rat::Rat;
use crate::rat::div_den;
use crate::rat::div_num;
use crate::rat::rat_lt;

verus! {

/// The optimization direction requested by the caller.
#[derive(Clone, Copy, Debug, PartialEq, Eq, Structural)]
pub enum SimplexMethod {
    Min,
    Max,
    /// No recognized direction: `run` refuses to do anything.
    Unspecified,
}

impl SimplexMethod {
    /// Maps the two recognized direction tokens; anything else means
    /// "no direction specified".
    pub fn new(x: &str) -> (r: SimplexMethod)
        ensures
            r == spec_method(x@),
    {
        let len = x.unicode_len();
        if len == 3 && x.get_char(0) == 'm' && x.get_char(1) == 'a' && x.get_char(2) == 'x' {
            SimplexMethod::Max
        } else if len == 3 && x.get_char(0) == 'm' && x.get_char(1) == 'i' && x.get_char(2) == 'n' {
            SimplexMethod::Min
        } else {
            SimplexMethod::Unspecified
        }
    }
}

/// The direction a sequence of characters names.
pub open spec fn spec_method(s: Seq<char>) -> SimplexMethod {
    if s =~= seq!['m', 'a', 'x'] {
        SimplexMethod::Max
    } else if s =~= seq!['m', 'i', 'n'] {
        SimplexMethod::Min
    } else {
        SimplexMethod::Unspecified
    }
}

/// Why a run stopped without an optimum.
#[derive(Clone, Copy, Debug, PartialEq, Eq, Structural)]
pub enum SimplexError {
    /// The ratio test found no eligible row: the objective is unbounded in
    /// the improving direction.
    Unbounded,
    /// An exact coefficient no longer fits the 64-bit rational
    /// representation.
    Overflow,
    /// The iteration ceiling was reached (possible only under degenerate
    /// cycling).
    Stalled,
}

/// Ceiling on the number of pivots of one run, so that degenerate cycling
/// surfaces as an explicit error instead of silent non-termination.
pub const MAX_PIVOTS: usize = 1000000;

/// The live simplex state.
pub struct Simplex {
    /// Constraint rows followed by the objective row; every row has width
    /// `1 + n + k`.
    pub mat: Vec<Vec<Rat>>,
    /// The optimization direction.
    pub action: SimplexMethod,
    /// Right-hand side, one entry per row; the objective row's entry holds
    /// the running objective value.
    pub res: Vec<Rat>,
    /// Count of decision variables.
    pub n: usize,
    /// Count of constraints.
    pub k: usize,
    /// For each constraint row, the column currently basic in it
    /// (0 while the row has not been pivoted yet).
    pub names: Vec<usize>,
}

impl Simplex {
    /// Common width of every row: one marker column, `n` decision columns,
    /// `k` slack columns.
    pub open spec fn width(self) -> int {
        1 + self.n + self.k
    }

    /// The coefficient at row `i`, column `j`.
    pub open spec fn at(self, i: int, j: int) -> Rat {
        self.mat@[i]@[j]
    }

    /// Structural well-formedness: all lengths agree and every stored
    /// rational has a positive denominator.
    pub open spec fn wf(self) -> bool {
        &&& self.mat@.len() == self.k + 1
        &&& self.res@.len() == self.k + 1
        &&& self.names@.len() == self.k
        &&& forall|i: int|
            0 <= i < self.mat@.len() ==> (#[trigger] self.mat@[i])@.len() == self.width()
        &&& forall|i: int, j: int|
            0 <= i < self.mat@.len() && 0 <= j < self.width() ==> (#[trigger] self.at(i, j)).wf()
        &&& forall|i: int| 0 <= i < self.res@.len() ==> (#[trigger] self.res@[i]).wf()
        &&& forall|i: int| 0 <= i < self.names@.len() ==> (#[trigger] self.names@[i]) < self.width()
    }

    /// Every constraint row's right-hand side is non-negative.
    pub open spec fn feasible(self) -> bool {
        forall|i: int| 0 <= i < self.k ==> (#[trigger] self.res@[i]).is_nonneg()
    }

    /// Column `j` of the objective row still blocks termination.
    pub open spec fn improving(self, j: int, maximize: bool) -> bool {
        if maximize {
            self.at(self.k as int, j).num < 0
        } else {
            self.at(self.k as int, j).num > 0
        }
    }

    /// No objective-row coefficient (the marker column aside) has the
    /// blocking sign: the tableau is optimal for the given direction.
    pub open spec fn terminated(self, maximize: bool) -> bool {
        forall|j: int| 1 <= j < self.width() ==> !(#[trigger] self.improving(j, maximize))
    }

    /// Row `i` may leave the basis for entering column `c`: its pivot-column
    /// entry is positive and its right-hand side non-negative, so its ratio
    /// is finite and `>= 0`.
    pub open spec fn eligible(self, i: int, c: int) -> bool {
        &&& 0 <= i < self.k
        &&& self.at(i, c).num > 0
        &&& self.res@[i].num >= 0
    }

    /// Ratio comparison `res[i] / mat[i][c] <= res[j] / mat[j][c]`,
    /// cross-multiplied (valid when both rows are eligible for `c`).
    pub open spec fn ratio_le(self, i: int, j: int, c: int) -> bool {
        (self.res@[i].num * self.at(i, c).den) * (self.res@[j].den * self.at(j, c).num)
            <= (self.res@[j].num * self.at(j, c).den) * (self.res@[i].den * self.at(i, c).num)
    }

    /// The objective-row entry at `a` is strictly better for the direction
    /// than the one at `b`.
    pub open spec fn col_better(self, a: int, b: int, maximize: bool) -> bool {
        if maximize {
            rat_lt(self.at(self.k as int, a), self.at(self.k as int, b))
        } else {
            rat_lt(self.at(self.k as int, b), self.at(self.k as int, a))
        }
    }

    /// `c` is the entering column: most extreme objective coefficient in the
    /// improving direction, earliest index on ties.
    pub open spec fn chosen_col(self, c: int, maximize: bool) -> bool {
        &&& 1 <= c < self.width()
        &&& forall|j: int| 1 <= j < self.width() ==> !(#[trigger] self.col_better(j, c, maximize))
        &&& forall|j: int| 1 <= j < c ==> #[trigger] self.col_better(c, j, maximize)
    }

    /// `row` is the leaving row for column `c`: eligible, of minimal ratio,
    /// earliest on ties.
    pub open spec fn chosen_row(self, row: int, c: int) -> bool {
        &&& self.eligible(row, c)
        &&& forall|i: int| #[trigger] self.eligible(i, c) ==> self.ratio_le(row, i, c)
        &&& forall|i: int| 0 <= i < row && #[trigger] self.eligible(i, c) ==> !self.ratio_le(
            i,
            row,
            c,
        )
    }

    /// Some eligible row's exact ratio for the entering column `c` does not
    /// fit the 64-bit representation.
    pub open spec fn ratio_overflows(self, c: int) -> bool {
        exists|i: int|
            #[trigger] self.eligible(i, c) && !crate::rat::fits(
                self.res@[i].num * self.at(i, c).den,
                self.res@[i].den * self.at(i, c).num,
            )
    }

    /// Some exact intermediate of the pivot at (`row`, `col`) — a scaled
    /// pivot-row entry, a product against the scaled row, or a row
    /// difference — does not fit the 64-bit representation.
    pub open spec fn pivot_overflows(pre: Simplex, row: int, col: int) -> bool {
        let lead = pre.at(row, col);
        ||| exists|j: int|
            0 <= j < pre.width() && !crate::rat::fits(
                div_num(#[trigger] pre.at(row, j), lead),
                div_den(pre.at(row, j), lead),
            )
        ||| !crate::rat::fits(div_num(pre.res@[row], lead), div_den(pre.res@[row], lead))
        ||| exists|i: int, j: int|
            0 <= i <= pre.k && i != row && 0 <= j < pre.width() && {
                let f = pre.at(i, col);
                let sn = div_num(pre.at(row, j), lead);
                let sd = div_den(pre.at(row, j), lead);
                let a = #[trigger] pre.at(i, j);
                !crate::rat::fits(f.num * sn, f.den * sd) || !crate::rat::fits(
                    a.num * (f.den * sd) - (f.num * sn) * a.den,
                    a.den * (f.den * sd),
                )
            }
        ||| exists|i: int|
            0 <= i <= pre.k && i != row && {
                let f = pre.at(i, col);
                let sn = div_num(pre.res@[row], lead);
                let sd = div_den(pre.res@[row], lead);
                let a = #[trigger] pre.res@[i];
                !crate::rat::fits(f.num * sn, f.den * sd) || !crate::rat::fits(
                    a.num * (f.den * sd) - (f.num * sn) * a.den,
                    a.den * (f.den * sd),
                )
            }
    }

    /// One engine step by the book: the tableau is not yet terminal for the
    /// direction, and `post` is `pre` reduced at the selected pivot element.
    pub open spec fn pivot_step(pre: Simplex, post: Simplex, maximize: bool) -> bool {
        exists|row: int, col: int|
            !pre.terminated(maximize) && pre.chosen_col(col, maximize) && pre.chosen_row(row, col)
                && #[trigger] Self::pivot_rel(pre, post, row, col)
    }

    /// `post` is reached from `pre` by exactly `steps` selected pivots.
    pub open spec fn pivots_reach(pre: Simplex, post: Simplex, maximize: bool, steps: nat) -> bool
        decreases steps,
    {
        if steps == 0 {
            post == pre
        } else {
            exists|mid: Simplex|
                #[trigger] Self::pivot_step(pre, mid, maximize) && Self::pivots_reach(
                    mid,
                    post,
                    maximize,
                    (steps - 1) as nat,
                )
        }
    }

    /// An exact value the next step needs does not fit the representation:
    /// either some eligible row's ratio for the entering column, or an
    /// intermediate of the selected pivot itself.
    pub open spec fn overflow_evidence(s: Simplex, maximize: bool) -> bool {
        ||| exists|c: int| #[trigger] s.chosen_col(c, maximize) && s.ratio_overflows(c)
        ||| exists|row: int, col: int|
            s.chosen_col(col, maximize) && #[trigger] s.chosen_row(row, col)
                && Self::pivot_overflows(s, row, col)
    }

    /// What an error of a run certifies about the state it stopped in: the
    /// stop was not premature, and the stated cause is present there.
    pub open spec fn stop_evidence(pre: Simplex, post: Simplex, maximize: bool, e: SimplexError) -> bool {
        &&& !post.terminated(maximize)
        &&& (e is Stalled ==> Self::pivots_reach(pre, post, maximize, MAX_PIVOTS as nat))
        &&& (e is Unbounded ==> exists|c: int|
            #[trigger] post.chosen_col(c, maximize) && forall|i: int|
                0 <= i < post.k ==> !(#[trigger] post.eligible(i, c)))
        &&& (e is Overflow ==> Self::overflow_evidence(post, maximize))
    }

    /// The basis record is truthful: every recorded basic column is the unit
    /// column of its row (1 there, 0 in every other row, objective included).
    pub open spec fn basis_ok(self) -> bool {
        forall|i: int|
            0 <= i < self.k && 1 <= #[trigger] self.names@[i] ==> {
                let c = self.names@[i] as int;
                &&& self.at(i, c).is_one()
                &&& forall|r: int|
                    0 <= r <= self.k && r != i ==> (#[trigger] self.at(r, c)).is_zero()
            }
    }

    /// An empty tableau, to be populated during construction.
    pub fn new() -> (r: Simplex)
        ensures
            r.action == SimplexMethod::Max,
            r.mat@.len() == 0,
            r.res@.len() == 0,
            r.names@.len() == 0,
            r.n == 0,
            r.k == 0,
    {
        Simplex {
            action: SimplexMethod::Max,
            mat: Vec::new(),
            res: Vec::new(),
            n: 0,
            k: 0,
            names: Vec::new(),
        }
    }

    /// Appends a row at the end of the matrix (construction only).
    pub fn push(&mut self, v: Vec<Rat>)
        ensures
            final (self).mat@ == old(self).mat@.push(v),
            final (self).action == old(self).action,
            final (self).res == old(self).res,
            final (self).n == old(self).n,
            final (self).k == old(self).k,
            final (self).names == old(self).names,
    {
        self.mat.push(v);
    }

    /// Removes and returns the last row of the matrix, if any.
    pub fn pop(&mut self) -> (r: Option<Vec<Rat>>)
        ensures
            old(self).mat@.len() == 0 ==> r is None && final (self).mat@ == old(self).mat@,
            old(self).mat@.len() > 0 ==> (match r {
                Some(v) => v == old(self).mat@.last() && final (self).mat@ == old(
                    self,
                ).mat@.subrange(0, old(self).mat@.len() - 1),
                None => false,
            }),
            final (self).action == old(self).action,
            final (self).res == old(self).res,
            final (self).n == old(self).n,
            final (self).k == old(self).k,
            final (self).names == old(self).names,
    {
        self.mat.pop()
    }

    /// Read access to a row.
    pub fn row(&self, i: usize) -> (r: &Vec<Rat>)
        requires
            i < self.mat@.len(),
        ensures
            r == self.mat@[i as int],
    {
        &self.mat[i]
    }

    /// Whether the objective row already has the optimal sign everywhere.
    pub fn is_terminated(&self, maximize: bool) -> (r: bool)
        requires
            self.wf(),
        ensures
            r <==> self.terminated(maximize),
    {
        let w = self.mat[self.k].len();
        let mut j: usize = 1;
        while j < w
            invariant
                self.wf(),
                1 <= j <= w,
                w == self.width(),
                forall|t: int| 1 <= t < j ==> !(#[trigger] self.improving(t, maximize)),
            decreases w - j,
        {
            let c = self.mat[self.k][j];
            if maximize {
                if c.num < 0 {
                    proof {
                        assert(self.improving(j as int, maximize));
                    }
                    return false;
                }
            } else {
                if c.num > 0 {
                    proof {
                        assert(self.improving(j as int, maximize));
                    }
                    return false;
                }
            }
            j += 1;
        }
        true
    }

    /// Selects the pivot element for one iteration: the entering column by
    /// the direction's sign rule, then the leaving row by the minimum-ratio
    /// test.  `Err(Unbounded)` when no row is eligible for the entering
    /// column; `Err(Overflow)` when an exact ratio cannot be represented.
    pub fn lead(&self, maximize: bool) -> (r: Result<(usize, usize), SimplexError>)
        requires
            self.wf(),
            !self.terminated(maximize),
        ensures
            match r {
                Ok((row, col)) => self.chosen_col(col as int, maximize) && self.chosen_row(
                    row as int,
                    col as int,
                ),
                Err(e) => e is Unbounded || e is Overflow,
            },
            (r matches Err(e) && e is Unbounded) ==> exists|c: int|
                #[trigger] self.chosen_col(c, maximize) && forall|i: int|
                    0 <= i < self.k ==> !(#[trigger] self.eligible(i, c)),
            (r matches Err(e) && e is Overflow) ==> exists|c: int|
                #[trigger] self.chosen_col(c, maximize) && self.ratio_overflows(c),
    {
        let w = self.mat[self.k].len();
        proof {
            assert(exists|j: int| 1 <= j < self.width() && self.improving(j, maximize));
        }
        let mut col: usize = 1;
        let mut j: usize = 2;
        while j < w
            invariant
                self.wf(),
                w == self.width(),
                1 <= col < j <= w,
                2 <= j,
                forall|t: int| 1 <= t < j ==> !(#[trigger] self.col_better(t, col as int, maximize)),
                forall|t: int| 1 <= t < col ==> #[trigger] self.col_better(col as int, t, maximize),
            decreases w - j,
        {
            proof {
                assert(self.at(self.k as int, j as int).wf());
                assert(self.at(self.k as int, col as int).wf());
            }
            let better = if maximize {
                self.mat[self.k][j].lt(self.mat[self.k][col])
            } else {
                self.mat[self.k][col].lt(self.mat[self.k][j])
            };
            if better {
                proof {
                    let kk = self.k as int;
                    assert forall|t: int| 1 <= t < j implies #[trigger] self.col_better(
                        j as int,
                        t,
                        maximize,
                    ) by {
                        assert(!self.col_better(t, col as int, maximize));
                        if maximize {
                            crate::rat::lemma_rat_lt_le_trans(
                                self.at(kk, j as int),
                                self.at(kk, col as int),
                                self.at(kk, t),
                            );
                        } else {
                            crate::rat::lemma_rat_le_lt_trans(
                                self.at(kk, t),
                                self.at(kk, col as int),
                                self.at(kk, j as int),
                            );
                        }
                    }
                    assert forall|t: int| 1 <= t < j implies !(#[trigger] self.col_better(
                        t,
                        j as int,
                        maximize,
                    )) by {
                        assert(!self.col_better(t, col as int, maximize));
                        if maximize {
                            crate::rat::lemma_rat_lt_le_trans(
                                self.at(kk, j as int),
                                self.at(kk, col as int),
                                self.at(kk, t),
                            );
                        } else {
                            crate::rat::lemma_rat_le_lt_trans(
                                self.at(kk, t),
                                self.at(kk, col as int),
                                self.at(kk, j as int),
                            );
                        }
                    }
                }
                proof {
                    assert(!self.col_better(j as int, j as int, maximize));
                }
                col = j;
            }
            j += 1;
        }
        proof {
            assert(self.chosen_col(col as int, maximize));
        }

        let mut best_row: usize = 0;
        let mut best_ratio: Rat = Rat::from_int(0);
        let mut found: bool = false;
        let mut i: usize = 0;
        while i < self.k
            invariant
                self.wf(),
                w == self.width(),
                1 <= col < w,
                self.chosen_col(col as int, maximize),
                i <= self.k,
                !found ==> forall|t: int| 0 <= t < i ==> !(#[trigger] self.eligible(t, col as int)),
                found ==> {
                    &&& 0 <= best_row < i
                    &&& self.eligible(best_row as int, col as int)
                    &&& best_ratio.wf()
                    &&& best_ratio.num == self.res@[best_row as int].num * self.at(
                        best_row as int,
                        col as int,
                    ).den
                    &&& best_ratio.den == self.res@[best_row as int].den * self.at(
                        best_row as int,
                        col as int,
                    ).num
                    &&& forall|t: int|
                        0 <= t < i && #[trigger] self.eligible(t, col as int) ==> self.ratio_le(
                            best_row as int,
                            t,
                            col as int,
                        )
                    &&& forall|t: int|
                        0 <= t < best_row && #[trigger] self.eligible(t, col as int)
                            ==> !self.ratio_le(t, best_row as int, col as int)
                },
            decreases self.k - i,
        {
            proof {
                assert(self.at(i as int, col as int).wf());
            }
            let a = self.mat[i][col];
            if a.num > 0 && self.res[i].num >= 0 {
                let ratio = match self.res[i].checked_div(a) {
                    Some(q) => q,
                    None => {
                        proof {
                            assert(self.eligible(i as int, col as int));
                            assert(self.ratio_overflows(col as int));
                        }
                        return Err(SimplexError::Overflow);
                    },
                };
                if !found {
                    best_row = i;
                    best_ratio = ratio;
                    found = true;
                } else if ratio.lt(best_ratio) {
                    proof {
                        lemma_ratio_new_best(*self, best_row as int, i as int, col as int);
                    }
                    best_row = i;
                    best_ratio = ratio;
                }
            }
            i += 1;
        }
        if !found {
            return Err(SimplexError::Unbounded);
        }
        Ok((best_row, col))
    }
}

impl Simplex {
    /// Entry-by-entry statement of one pivot: the pivot row of `post` is the
    /// pivot row of `pre` scaled by the inverse of the pivot element, every
    /// other row (the objective row included) has the scaled row times its
    /// own pivot-column entry subtracted, the right-hand sides follow the
    /// same combinations, and the basis record maps `row` to `col`.
    pub open spec fn pivot_rel(pre: Simplex, post: Simplex, row: int, col: int) -> bool {
        let lead = pre.at(row, col);
        &&& post.n == pre.n
        &&& post.k == pre.k
        &&& post.action == pre.action
        &&& post.mat@.len() == pre.mat@.len()
        &&& post.res@.len() == pre.res@.len()
        &&& forall|i: int|
            0 <= i < post.mat@.len() ==> (#[trigger] post.mat@[i])@.len() == pre.width()
        &&& post.names@ == pre.names@.update(row, col as usize)
        &&& forall|j: int|
            0 <= j < pre.width() ==> (#[trigger] post.at(row, j)).num == div_num(
                pre.at(row, j),
                lead,
            ) && post.at(row, j).den == div_den(pre.at(row, j), lead)
        &&& post.res@[row].num == div_num(pre.res@[row], lead)
        &&& post.res@[row].den == div_den(pre.res@[row], lead)
        &&& forall|i: int, j: int|
            0 <= i <= pre.k && i != row && 0 <= j < pre.width() ==> (#[trigger] post.at(
                i,
                j,
            )).num == crate::rat::elim_num(pre.at(i, j), pre.at(i, col), post.at(row, j))
                && post.at(i, j).den == crate::rat::elim_den(
                pre.at(i, j),
                pre.at(i, col),
                post.at(row, j),
            )
        &&& forall|i: int|
            0 <= i <= pre.k && i != row ==> (#[trigger] post.res@[i]).num == crate::rat::elim_num(
                pre.res@[i],
                pre.at(i, col),
                post.res@[row],
            ) && post.res@[i].den == crate::rat::elim_den(
                pre.res@[i],
                pre.at(i, col),
                post.res@[row],
            )
    }

    /// Performs the row reduction for the pivot element at (`row`, `col`) and
    /// records the new basic column, all in one atomic step: on `Err` the
    /// tableau is unchanged.  The pivot column of the result is the unit
    /// column, and a pivot whose row won the minimum-ratio test keeps every
    /// constraint right-hand side non-negative.
    pub fn pivot(&mut self, row: usize, col: usize) -> (r: Result<(), SimplexError>)
        requires
            old(self).wf(),
            row < old(self).k,
            1 <= col < old(self).width(),
            old(self).at(row as int, col as int).num != 0,
        ensures
            match r {
                Ok(()) => {
                    &&& Self::pivot_rel(*old(self), *final (self), row as int, col as int)
                    &&& final (self).wf()
                    &&& final (self).at(row as int, col as int).is_one()
                    &&& forall|i: int|
                        0 <= i <= final (self).k && i != row ==> (#[trigger] final (self).at(
                            i,
                            col as int,
                        )).is_zero()
                    &&& ((old(self).feasible() && old(self).at(row as int, col as int).num > 0
                        && (forall|i: int|
                        #[trigger] old(self).eligible(i, col as int) ==> old(self).ratio_le(
                            row as int,
                            i,
                            col as int,
                        ))) ==> final (self).feasible())
                },
                Err(e) => e is Overflow && *final (self) == *old(self)
                    && Self::pivot_overflows(*old(self), row as int, col as int),
            },
    {
        let w = self.mat[row].len();
        proof {
            assert(self.at(row as int, col as int).wf());
        }
        let lead = self.mat[row][col];

        // Scale the pivot row; this snapshot is what every other row is
        // reduced against.
        let mut new_row: Vec<Rat> = Vec::new();
        let mut j: usize = 0;
        while j < w
            invariant
                self.wf(),
                row < self.k,
                1 <= col < w,
                w == self.width(),
                lead == self.at(row as int, col as int),
                lead.wf(),
                lead.num != 0,
                j <= w,
                new_row@.len() == j,
                forall|t: int|
                    0 <= t < j ==> (#[trigger] new_row@[t]).num == div_num(
                        self.at(row as int, t),
                        lead,
                    ) && new_row@[t].den == div_den(self.at(row as int, t), lead)
                        && new_row@[t].wf(),
            decreases w - j,
        {
            proof {
                assert(self.at(row as int, j as int).wf());
            }
            let q = match self.mat[row][j].checked_div(lead) {
                Some(q) => q,
                None => {
                    proof {
                        assert(!crate::rat::fits(
                            div_num(self.at(row as int, j as int), lead),
                            div_den(self.at(row as int, j as int), lead),
                        ));
                        assert(Self::pivot_overflows(*self, row as int, col as int));
                    }
                    return Err(SimplexError::Overflow);
                },
            };
            new_row.push(q);
            j += 1;
        }
        let new_rrow = match self.res[row].checked_div(lead) {
            Some(q) => q,
            None => {
                proof {
                    assert(Self::pivot_overflows(*self, row as int, col as int));
                }
                return Err(SimplexError::Overflow);
            },
        };

        // Rebuild the matrix and the right-hand-side column.
        let rows = self.mat.len();
        let mut new_mat: Vec<Vec<Rat>> = Vec::new();
        let mut new_res: Vec<Rat> = Vec::new();
        let mut i: usize = 0;
        while i < rows
            invariant
                self.wf(),
                row < self.k,
                1 <= col < w,
                w == self.width(),
                rows == self.k + 1,
                lead == self.at(row as int, col as int),
                lead.wf(),
                lead.num != 0,
                new_row@.len() == w,
                forall|t: int|
                    0 <= t < w ==> (#[trigger] new_row@[t]).num == div_num(
                        self.at(row as int, t),
                        lead,
                    ) && new_row@[t].den == div_den(self.at(row as int, t), lead)
                        && new_row@[t].wf(),
                new_rrow.num == div_num(self.res@[row as int], lead),
                new_rrow.den == div_den(self.res@[row as int], lead),
                new_rrow.wf(),
                i <= rows,
                new_mat@.len() == i,
                new_res@.len() == i,
                forall|t: int| 0 <= t < i ==> (#[trigger] new_mat@[t])@.len() == w,
                row < i ==> (forall|t: int| 0 <= t < w ==> #[trigger] new_mat@[row as int]@[t]
                    == new_row@[t]) && new_res@[row as int] == new_rrow,
                forall|t: int, jj: int|
                    0 <= t < i && t != row && 0 <= jj < w ==> (#[trigger] new_mat@[t]@[jj]).num
                        == crate::rat::elim_num(self.at(t, jj), self.at(t, col as int), new_row@[jj])
                        && new_mat@[t]@[jj].den == crate::rat::elim_den(
                        self.at(t, jj),
                        self.at(t, col as int),
                        new_row@[jj],
                    ) && new_mat@[t]@[jj].wf(),
                forall|t: int|
                    0 <= t < i && t != row ==> (#[trigger] new_res@[t]).num == crate::rat::elim_num(
                        self.res@[t],
                        self.at(t, col as int),
                        new_rrow,
                    ) && new_res@[t].den == crate::rat::elim_den(
                        self.res@[t],
                        self.at(t, col as int),
                        new_rrow,
                    ) && new_res@[t].wf(),
            decreases rows - i,
        {
            if i == row {
                let mut cp: Vec<Rat> = Vec::new();
                let mut j2: usize = 0;
                while j2 < w
                    invariant
                        new_row@.len() == w,
                        j2 <= w,
                        cp@.len() == j2,
                        forall|t: int| 0 <= t < j2 ==> #[trigger] cp@[t] == new_row@[t],
                    decreases w - j2,
                {
                    cp.push(new_row[j2]);
                    j2 += 1;
                }
                new_mat.push(cp);
                new_res.push(new_rrow);
            } else {
                proof {
                    assert(self.at(i as int, col as int).wf());
                }
                let f = self.mat[i][col];
                let mut out: Vec<Rat> = Vec::new();
                let mut j2: usize = 0;
                while j2 < w
                    invariant
                        self.wf(),
                        i < rows,
                        rows == self.k + 1,
                        row < self.k,
                        i != row,
                        1 <= col < w,
                        w == self.width(),
                        lead == self.at(row as int, col as int),
                        f == self.at(i as int, col as int),
                        f.wf(),
                        new_row@.len() == w,
                        forall|t: int|
                            0 <= t < w ==> (#[trigger] new_row@[t]).num == div_num(
                                self.at(row as int, t),
                                lead,
                            ) && new_row@[t].den == div_den(self.at(row as int, t), lead)
                                && new_row@[t].wf(),
                        j2 <= w,
                        out@.len() == j2,
                        forall|t: int|
                            0 <= t < j2 ==> (#[trigger] out@[t]).num == crate::rat::elim_num(
                                self.at(i as int, t),
                                f,
                                new_row@[t],
                            ) && out@[t].den == crate::rat::elim_den(
                                self.at(i as int, t),
                                f,
                                new_row@[t],
                            ) && out@[t].wf(),
                    decreases w - j2,
                {
                    proof {
                        assert(self.at(i as int, j2 as int).wf());
                        assert(new_row@[j2 as int].wf());
                    }
                    let m = match f.checked_mul(new_row[j2]) {
                        Some(m) => m,
                        None => {
                            proof {
                                let sn = div_num(self.at(row as int, j2 as int), lead);
                                let sd = div_den(self.at(row as int, j2 as int), lead);
                                let a = self.at(i as int, j2 as int);
                                assert(!crate::rat::fits(f.num * sn, f.den * sd));
                                assert(Self::pivot_overflows(*self, row as int, col as int));
                            }
                            return Err(SimplexError::Overflow);
                        },
                    };
                    let e = match self.mat[i][j2].checked_sub(m) {
                        Some(e) => e,
                        None => {
                            proof {
                                let sn = div_num(self.at(row as int, j2 as int), lead);
                                let sd = div_den(self.at(row as int, j2 as int), lead);
                                let a = self.at(i as int, j2 as int);
                                assert(!crate::rat::fits(
                                    a.num * (f.den * sd) - (f.num * sn) * a.den,
                                    a.den * (f.den * sd),
                                ));
                                assert(Self::pivot_overflows(*self, row as int, col as int));
                            }
                            return Err(SimplexError::Overflow);
                        },
                    };
                    out.push(e);
                    j2 += 1;
                }
                let m = match f.checked_mul(new_rrow) {
                    Some(m) => m,
                    None => {
                        proof {
                            let sn = div_num(self.res@[row as int], lead);
                            let sd = div_den(self.res@[row as int], lead);
                            let a = self.res@[i as int];
                            assert(!crate::rat::fits(f.num * sn, f.den * sd));
                            assert(Self::pivot_overflows(*self, row as int, col as int));
                        }
                        return Err(SimplexError::Overflow);
                    },
                };
                let er = match self.res[i].checked_sub(m) {
                    Some(e) => e,
                    None => {
                        proof {
                            let sn = div_num(self.res@[row as int], lead);
                            let sd = div_den(self.res@[row as int], lead);
                            let a = self.res@[i as int];
                            assert(!crate::rat::fits(
                                a.num * (f.den * sd) - (f.num * sn) * a.den,
                                a.den * (f.den * sd),
                            ));
                            assert(Self::pivot_overflows(*self, row as int, col as int));
                        }
                        return Err(SimplexError::Overflow);
                    },
                };
                new_mat.push(out);
                new_res.push(er);
            }
            i += 1;
        }

        self.mat = new_mat;
        self.res = new_res;
        self.names.set(row, col);

        proof {
            let pre = *old(self);
            let post = *self;
            let rr = row as int;
            let cc = col as int;
            let s = post.at(rr, cc);
            assert(Self::pivot_rel(pre, post, rr, cc));
            crate::rat::lemma_div_self_is_one(lead);
            assert(post.at(rr, cc).is_one());
            assert forall|t: int| 0 <= t < post.names@.len() implies (#[trigger] post.names@[t])
                < post.width() by {
                assert(pre.names@[t] < pre.width() || t == rr);
            }
            assert(post.wf());
            assert forall|t: int| 0 <= t <= post.k && t != rr implies (#[trigger] post.at(
                t,
                cc,
            )).is_zero() by {
                let a = pre.at(t, cc);
                lemma_elim_cancel(a.num as int, a.den as int, s.num as int, s.den as int);
            }
            if pre.feasible() && lead.num > 0 && (forall|t: int|
                #[trigger] pre.eligible(t, cc) ==> pre.ratio_le(rr, t, cc)) {
                assert forall|t: int| 0 <= t < post.k implies (#[trigger] post.res@[t]).is_nonneg()
                    by {
                    if t == rr {
                        crate::rat::lemma_pos_product(pre.res@[rr].den as int, lead.num as int);
                        lemma_nonneg_times_pos(pre.res@[rr].num as int, lead.den as int);
                    } else {
                        if pre.at(t, cc).num > 0 {
                            assert(pre.eligible(t, cc));
                            assert(pre.ratio_le(rr, t, cc));
                        }
                        lemma_feasible_row(
                            pre.res@[t].num as int,
                            pre.res@[t].den as int,
                            pre.at(t, cc).num as int,
                            pre.at(t, cc).den as int,
                            pre.res@[rr].num as int,
                            pre.res@[rr].den as int,
                            lead.num as int,
                            lead.den as int,
                        );
                    }
                }
            }
        }
        Ok(())
    }
}

impl Simplex {
    /// The assignment read off the first `m` constraint rows: index `v`
    /// holds the right-hand side of the last row among them whose basic
    /// column is the decision variable `v`, and zero otherwise.
    pub open spec fn assigned_upto(self, m: int) -> Seq<Rat>
        decreases m,
    {
        if m <= 0 {
            Seq::new((self.n + 1) as nat, |v: int| Rat { num: 0, den: 1 })
        } else {
            let prev = self.assigned_upto(m - 1);
            if 1 <= self.names@[m - 1] <= self.n {
                prev.update(self.names@[m - 1] as int, self.res@[m - 1])
            } else {
                prev
            }
        }
    }

    /// The solution read off a tableau: index 0 holds the objective value,
    /// indices `1..=n` the decision variables, 0 for one never made basic.
    pub open spec fn spec_extract(self) -> Seq<Rat> {
        self.assigned_upto(self.k as int).update(0, self.res@[self.k as int])
    }

    /// Reads the solution off the tableau: for every row whose basic column
    /// is a decision variable the variable takes that row's right-hand side,
    /// and slot 0 takes the objective row's right-hand side.
    pub fn extract(&self) -> (r: Vec<Rat>)
        requires
            self.wf(),
        ensures
            r@ == self.spec_extract(),
            r@.len() == self.n + 1,
    {
        let w = self.mat[self.k].len();
        proof {
            assert(w == self.width());
        }
        let mut out: Vec<Rat> = Vec::new();
        let mut v: usize = 0;
        while v < self.n + 1
            invariant
                self.wf(),
                w == self.width(),
                v <= self.n + 1,
                out@.len() == v,
                forall|t: int| 0 <= t < v ==> #[trigger] out@[t] == (Rat { num: 0, den: 1 }),
            decreases self.n + 1 - v,
        {
            out.push(Rat::from_int(0));
            v += 1;
        }
        proof {
            assert(out@ =~= self.assigned_upto(0));
        }
        let mut i: usize = 0;
        while i < self.k
            invariant
                self.wf(),
                i <= self.k,
                out@.len() == self.n + 1,
                out@ == self.assigned_upto(i as int),
            decreases self.k - i,
        {
            let b = self.names[i];
            if 1 <= b && b <= self.n {
                out.set(b, self.res[i]);
            }
            proof {
                assert(out@ == self.assigned_upto(i + 1));
            }
            i += 1;
        }
        out.set(0, self.res[self.k]);
        out
    }

    /// One full engine step: selects the pivot element for the direction and
    /// performs the row reduction.  On any error the tableau is unchanged.
    pub fn iteration(&mut self, maximize: bool) -> (r: Result<(usize, usize), SimplexError>)
        requires
            old(self).wf(),
            !old(self).terminated(maximize),
        ensures
            match r {
                Ok((row, col)) => {
                    &&& old(self).chosen_col(col as int, maximize)
                    &&& old(self).chosen_row(row as int, col as int)
                    &&& Self::pivot_rel(*old(self), *final (self), row as int, col as int)
                    &&& final (self).wf()
                    &&& (old(self).feasible() ==> final (self).feasible())
                },
                Err(e) => *final (self) == *old(self),
            },
            (r matches Err(e) && e is Unbounded) ==> exists|c: int|
                #[trigger] old(self).chosen_col(c, maximize) && forall|i: int|
                    0 <= i < old(self).k ==> !(#[trigger] old(self).eligible(i, c)),
            (r matches Err(e) && e is Overflow) ==> Self::overflow_evidence(*old(self), maximize),
            r matches Err(e) ==> !(e is Stalled),
    {
        let (row, col) = match self.lead(maximize) {
            Ok(p) => p,
            Err(e) => {
                proof {
                    if e is Overflow {
                        assert(Self::overflow_evidence(*self, maximize));
                    }
                }
                return Err(e);
            },
        };
        match self.pivot(row, col) {
            Ok(()) => Ok((row, col)),
            Err(e) => {
                proof {
                    assert(old(self).chosen_row(row as int, col as int));
                    assert(Self::overflow_evidence(*old(self), maximize));
                }
                Err(e)
            },
        }
    }

    /// Runs pivots for the given direction until every objective-row
    /// coefficient has the optimal sign, then extracts the solution.  A
    /// tableau that is already terminal is left untouched.  Whatever the
    /// outcome, the final tableau is reached from the input by a chain of
    /// selected pivots, and every error certifies its cause in that final
    /// state.
    fn optimize(&mut self, maximize: bool) -> (r: Result<Vec<Rat>, SimplexError>)
        requires
            old(self).wf(),
            old(self).feasible(),
        ensures
            final (self).wf(),
            final (self).feasible(),
            final (self).n == old(self).n,
            final (self).k == old(self).k,
            final (self).action == old(self).action,
            r matches Ok(s) ==> final (self).terminated(maximize) && s@ == final (
                self
            ).spec_extract(),
            old(self).terminated(maximize) ==> *final (self) == *old(self) && (r matches Ok(s)
                && s@ == old(self).spec_extract()),
            exists|st: nat|
                st <= MAX_PIVOTS && #[trigger] Self::pivots_reach(
                    *old(self),
                    *final (self),
                    maximize,
                    st,
                ),
            r matches Err(e) ==> Self::stop_evidence(*old(self), *final (self), maximize, e),
            old(self).basis_ok() ==> final (self).basis_ok(),
    {
        let mut steps: usize = 0;
        loop
            invariant
                self.wf(),
                self.feasible(),
                self.n == old(self).n,
                self.k == old(self).k,
                self.action == old(self).action,
                old(self).terminated(maximize) ==> *self == *old(self),
                steps <= MAX_PIVOTS,
                Self::pivots_reach(*old(self), *self, maximize, steps as nat),
                old(self).basis_ok() ==> self.basis_ok(),
            decreases MAX_PIVOTS - steps,
        {
            if self.is_terminated(maximize) {
                let s = self.extract();
                return Ok(s);
            }
            if steps >= MAX_PIVOTS {
                return Err(SimplexError::Stalled);
            }
            let ghost pre_state: Simplex = *self;
            match self.iteration(maximize) {
                Ok(rc) => {
                    proof {
                        assert(Self::pivot_rel(pre_state, *self, rc.0 as int, rc.1 as int));
                        assert(Self::pivot_step(pre_state, *self, maximize));
                        lemma_pivots_reach_snoc(
                            *old(self),
                            pre_state,
                            *self,
                            maximize,
                            steps as nat,
                        );
                        if old(self).basis_ok() {
                            lemma_pivot_keeps_basis(
                                pre_state,
                                *self,
                                rc.0 as int,
                                rc.1 as int,
                            );
                        }
                    }
                },
                Err(e) => {
                    return Err(e);
                },
            }
            steps += 1;
        }
    }

    /// Runs the engine in the direction `action` names.  With no recognized
    /// direction nothing happens and no solution is returned (and that is
    /// the only way `Ok(None)` arises); otherwise the terminal tableau's
    /// solution is returned, or the error that stopped the run.  In every
    /// outcome the final tableau is reached from the input by a chain of
    /// selected pivots (so pivoting happens only while some coefficient
    /// blocks termination), and each error certifies its cause there.
    pub fn run(&mut self) -> (r: Result<Option<Vec<Rat>>, SimplexError>)
        requires
            old(self).wf(),
            !(old(self).action is Unspecified) ==> old(self).feasible(),
        ensures
            final (self).wf(),
            old(self).feasible() ==> final (self).feasible(),
            !(old(self).action is Unspecified) ==> final (self).feasible(),
            final (self).n == old(self).n,
            final (self).k == old(self).k,
            final (self).action == old(self).action,
            old(self).action is Unspecified <==> (r matches Ok(s) && s is None),
            old(self).action is Unspecified ==> *final (self) == *old(self),
            match r {
                Ok(s) => match s {
                    Some(sol) => {
                        &&& (old(self).action is Max ==> final (self).terminated(true))
                        &&& (old(self).action is Min ==> final (self).terminated(false))
                        &&& sol@ == final (self).spec_extract()
                    },
                    None => true,
                },
                Err(_) => true,
            },
            (old(self).action is Max && old(self).terminated(true)) ==> *final (self) == *old(self)
                && (r matches Ok(s) && s matches Some(sol) && sol@ == old(self).spec_extract()),
            (old(self).action is Min && old(self).terminated(false)) ==> *final (self) == *old(self) && (r matches Ok(s) && s matches Some(sol) && sol@ == old(self).spec_extract()),
            old(self).action is Max ==> (exists|st: nat|
                st <= MAX_PIVOTS && #[trigger] Self::pivots_reach(
                    *old(self),
                    *final (self),
                    true,
                    st,
                )),
            old(self).action is Min ==> (exists|st: nat|
                st <= MAX_PIVOTS && #[trigger] Self::pivots_reach(
                    *old(self),
                    *final (self),
                    false,
                    st,
                )),
            match r {
                Ok(_) => true,
                Err(e) => {
                    &&& (old(self).action is Max ==> Self::stop_evidence(
                        *old(self),
                        *final (self),
                        true,
                        e,
                    ))
                    &&& (old(self).action is Min ==> Self::stop_evidence(
                        *old(self),
                        *final (self),
                        false,
                        e,
                    ))
                },
            },
            old(self).basis_ok() ==> final (self).basis_ok(),
    {
        match self.action {
            SimplexMethod::Max => match self.optimize(true) {
                Ok(s) => Ok(Some(s)),
                Err(e) => Err(e),
            },
            SimplexMethod::Min => match self.optimize(false) {
                Ok(s) => Ok(Some(s)),
                Err(e) => Err(e),
            },
            SimplexMethod::Unspecified => Ok(None),
        }
    }
}

impl Simplex {
    /// Decides well-formedness at run time, for callers that assembled the
    /// tableau outside of any checked construction path.
    pub fn check_wf(&self) -> (r: bool)
        ensures
            r <==> self.wf(),
    {
        let rows = self.mat.len();
        if rows == 0 {
            return false;
        }
        if self.k != rows - 1 {
            return false;
        }
        if self.res.len() != rows {
            return false;
        }
        if self.names.len() != self.k {
            return false;
        }
        let w = self.mat[0].len();
        if w < 1 || w - 1 < self.k || self.n != w - 1 - self.k {
            return false;
        }
        let mut i: usize = 0;
        while i < rows
            invariant
                rows == self.mat@.len(),
                rows == self.k + 1,
                rows == self.res@.len(),
                self.names@.len() == self.k,
                w == self.width(),
                i <= rows,
                forall|t: int| 0 <= t < i ==> (#[trigger] self.mat@[t])@.len() == w,
                forall|t: int, j: int|
                    0 <= t < i && 0 <= j < w ==> (#[trigger] self.at(t, j)).wf(),
                forall|t: int| 0 <= t < i ==> (#[trigger] self.res@[t]).wf(),
            decreases rows - i,
        {
            if self.mat[i].len() != w {
                return false;
            }
            let mut j: usize = 0;
            while j < w
                invariant
                    rows == self.mat@.len(),
                    i < rows,
                    w == self.mat@[i as int]@.len(),
                    w == self.width(),
                    j <= w,
                    forall|t: int| 0 <= t < j ==> (#[trigger] self.at(i as int, t)).wf(),
                decreases w - j,
            {
                if self.mat[i][j].den <= 0 {
                    proof {
                        assert(!self.at(i as int, j as int).wf());
                    }
                    return false;
                }
                proof {
                    assert(self.at(i as int, j as int).wf());
                }
                j += 1;
            }
            if self.res[i].den <= 0 {
                return false;
            }
            i += 1;
        }
        let mut i2: usize = 0;
        while i2 < self.k
            invariant
                self.names@.len() == self.k,
                w == self.width(),
                i2 <= self.k,
                forall|t: int| 0 <= t < i2 ==> (#[trigger] self.names@[t]) < w,
            decreases self.k - i2,
        {
            if self.names[i2] >= w {
                return false;
            }
            i2 += 1;
        }
        true
    }

    /// Decides at run time whether every constraint right-hand side is
    /// non-negative (the starting point the engine requires).
    pub fn check_feasible(&self) -> (r: bool)
        requires
            self.wf(),
        ensures
            r <==> self.feasible(),
    {
        let mut i: usize = 0;
        while i < self.k
            invariant
                self.wf(),
                i <= self.k,
                forall|t: int| 0 <= t < i ==> (#[trigger] self.res@[t]).is_nonneg(),
            decreases self.k - i,
        {
            if self.res[i].num < 0 {
                return false;
            }
            i += 1;
        }
        true
    }
}

/// The pivot selection leaves no choice: the extreme-coefficient rule with
/// earliest-index ties fixes the entering column, and the minimum-ratio rule
/// with earliest-index ties fixes the leaving row.
pub proof fn lemma_chosen_pivot_unique(
    s: Simplex,
    r1: int,
    c1: int,
    r2: int,
    c2: int,
    maximize: bool,
)
    requires
        s.chosen_col(c1, maximize),
        s.chosen_col(c2, maximize),
        s.chosen_row(r1, c1),
        s.chosen_row(r2, c2),
    ensures
        c1 == c2,
        r1 == r2,
{
    if c1 < c2 {
        assert(s.col_better(c2, c1, maximize));
        assert(!s.col_better(c2, c1, maximize));
    }
    if c2 < c1 {
        assert(s.col_better(c1, c2, maximize));
        assert(!s.col_better(c1, c2, maximize));
    }
    if r1 < r2 {
        assert(s.eligible(r1, c1));
        assert(!s.ratio_le(r1, r2, c2));
        assert(s.ratio_le(r1, r2, c1));
    }
    if r2 < r1 {
        assert(s.eligible(r2, c1));
        assert(!s.ratio_le(r2, r1, c1));
        assert(s.ratio_le(r2, r1, c1));
    }
}

/// The basis record stays truthful across a pivot: the new unit column is
/// recorded for the pivot row, and every previously recorded unit column is
/// untouched by the reduction, because the scaled pivot row holds a zero
/// there.
pub proof fn lemma_pivot_keeps_basis(pre: Simplex, post: Simplex, row: int, col: int)
    requires
        pre.wf(),
        post.wf(),
        0 <= row < pre.k,
        1 <= col < pre.width(),
        col <= usize::MAX,
        Simplex::pivot_rel(pre, post, row, col),
        pre.basis_ok(),
    ensures
        post.basis_ok(),
{
    let lead = pre.at(row, col);
    assert(post.at(row, col).den == div_den(lead, lead));
    assert(lead.num != 0) by {
        if lead.num == 0 {
            assert(div_den(lead, lead) == -(lead.den * 0));
        }
    }
    crate::rat::lemma_div_self_is_one(lead);
    assert forall|i: int| 0 <= i < post.k && 1 <= #[trigger] post.names@[i] implies {
        let c = post.names@[i] as int;
        &&& post.at(i, c).is_one()
        &&& forall|r: int| 0 <= r <= post.k && r != i ==> (#[trigger] post.at(r, c)).is_zero()
    } by {
        let c = post.names@[i] as int;
        if i == row {
            assert(c == col);
            assert(post.at(row, col).is_one());
            assert forall|r: int| 0 <= r <= post.k && r != i implies (#[trigger] post.at(
                r,
                c,
            )).is_zero() by {
                let a = pre.at(r, col);
                lemma_elim_cancel(
                    a.num as int,
                    a.den as int,
                    post.at(row, col).num as int,
                    post.at(row, col).den as int,
                );
            }
        } else {
            assert(post.names@[i] == pre.names@[i]);
            assert(pre.at(i, c).is_one());
            assert(c != col) by {
                if c == col {
                    assert(pre.at(row, col).is_zero());
                }
            }
            let sc = post.at(row, c);
            assert(sc.num == div_num(pre.at(row, c), lead));
            assert(pre.at(row, c).is_zero());
            assert(sc.num == 0);
            assert(post.at(i, c).is_one()) by {
                let a = pre.at(i, c);
                let f = pre.at(i, col);
                assert(post.at(i, c).num == a.num * (f.den * sc.den) - (f.num * 0) * a.den);
                assert(post.at(i, c).den == a.den * (f.den * sc.den));
            }
            assert forall|r: int| 0 <= r <= post.k && r != i implies (#[trigger] post.at(
                r,
                c,
            )).is_zero() by {
                if r == row {
                    assert(post.at(row, c) == sc);
                } else {
                    let a = pre.at(r, c);
                    let f = pre.at(r, col);
                    assert(a.is_zero());
                    assert(post.at(r, c).num == 0 * (f.den * sc.den) - (f.num * 0) * a.den);
                }
            }
        }
    }
}

/// A chain of selected pivots extended by one more selected pivot is a
/// chain one step longer.
proof fn lemma_pivots_reach_snoc(a: Simplex, b: Simplex, c: Simplex, maximize: bool, steps: nat)
    requires
        Simplex::pivots_reach(a, b, maximize, steps),
        Simplex::pivot_step(b, c, maximize),
    ensures
        Simplex::pivots_reach(a, c, maximize, steps + 1),
    decreases steps,
{
    if steps == 0 {
        assert(b == a);
        assert(Simplex::pivots_reach(c, c, maximize, 0));
    } else {
        let mid = choose|mid: Simplex|
            #[trigger] Simplex::pivot_step(a, mid, maximize) && Simplex::pivots_reach(
                mid,
                b,
                maximize,
                (steps - 1) as nat,
            );
        lemma_pivots_reach_snoc(mid, b, c, maximize, (steps - 1) as nat);
    }
}

/// Extraction is a pure function of the terminal tableau: reading the
/// solution twice off the same state yields identical results.
pub proof fn lemma_extract_idempotent(s: Simplex, r1: Seq<Rat>, r2: Seq<Rat>)
    requires
        r1 == s.spec_extract(),
        r2 == s.spec_extract(),
    ensures
        r1 == r2,
{
}

/// The elimination step applied to the pivot-column entry itself yields an
/// exactly zero numerator, since the scaled pivot row holds a one there.
proof fn lemma_elim_cancel(an: int, ad: int, sn: int, sd: int)
    by (nonlinear_arith)
    requires
        sn == sd,
    ensures
        an * (ad * sd) - (an * sn) * ad == 0,
{
}

/// A non-negative number times a positive one is non-negative.
proof fn lemma_nonneg_times_pos(x: int, y: int)
    by (nonlinear_arith)
    requires
        x >= 0,
        y > 0,
    ensures
        x * y >= 0,
{
}

/// The heart of the feasibility invariant: a row reduced against the scaled
/// pivot row keeps a non-negative right-hand side, provided the pivot row won
/// the minimum-ratio test (rows with a non-positive pivot-column entry can
/// only gain).  Everything is stated over exact cross-multiplied integers.
proof fn lemma_feasible_row(
    rn: int,
    rd: int,
    fnum: int,
    fden: int,
    pn: int,
    pd: int,
    ln_: int,
    ld: int,
)
    by (nonlinear_arith)
    requires
        rd > 0,
        fden > 0,
        pd > 0,
        ld > 0,
        ln_ > 0,
        rn >= 0,
        pn >= 0,
        fnum > 0 ==> (pn * ld) * (rd * fnum) <= (rn * fden) * (pd * ln_),
    ensures
        rn * (fden * (pd * ln_)) - (fnum * (pn * ld)) * rd >= 0,
{
}

/// When row `b` was the running minimum and row `i` has a strictly smaller
/// ratio, `i` becomes the minimum over everything `b` dominated.
proof fn lemma_ratio_new_best(s: Simplex, b: int, i: int, c: int)
    requires
        s.wf(),
        1 <= c < s.width(),
        s.eligible(b, c),
        s.eligible(i, c),
        !s.ratio_le(b, i, c),
        forall|t: int| 0 <= t < i && #[trigger] s.eligible(t, c) ==> s.ratio_le(b, t, c),
    ensures
        forall|t: int| 0 <= t < i && #[trigger] s.eligible(t, c) ==> s.ratio_le(i, t, c),
        forall|t: int| 0 <= t < i && #[trigger] s.eligible(t, c) ==> !s.ratio_le(t, i, c),
{
    assert forall|t: int| 0 <= t < i && #[trigger] s.eligible(t, c) implies s.ratio_le(i, t, c)
        && !s.ratio_le(t, i, c) by {
        assert(s.ratio_le(b, t, c));
        crate::rat::lemma_pos_product(s.res@[i].den as int, s.at(i, c).num as int);
        crate::rat::lemma_pos_product(s.res@[b].den as int, s.at(b, c).num as int);
        crate::rat::lemma_pos_product(s.res@[t].den as int, s.at(t, c).num as int);
        lemma_ratio_lt_le_trans(
            s.res@[i].num as int,
            s.res@[i].den * s.at(i, c).num,
            s.res@[b].num as int,
            s.res@[b].den * s.at(b, c).num,
            s.res@[t].num as int,
            s.res@[t].den * s.at(t, c).num,
            s.at(i, c).den as int,
            s.at(b, c).den as int,
            s.at(t, c).den as int,
        );
    }
}

/// Transitivity of the cross-multiplied ratio order: if `i < b` strictly and
/// `b <= t`, then `i < t` (denominator products are positive).
proof fn lemma_ratio_lt_le_trans(
    in_: int,
    id: int,
    bn: int,
    bd: int,
    tn: int,
    td: int,
    ie: int,
    be: int,
    te: int,
)
    by (nonlinear_arith)
    requires
        id > 0,
        bd > 0,
        td > 0,
        ie > 0,
        be > 0,
        te > 0,
        (in_ * ie) * bd < (bn * be) * id,
        (bn * be) * td <= (tn * te) * bd,
    ensures
        (in_ * ie) * td < (tn * te) * id,
        !((tn * te) * id <= (in_ * ie) * td),
{
}

} // verus!
