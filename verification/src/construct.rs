//! Verified construction of the canonical tableau from already-parsed data.
//!
//! The engine expects rows of width `1 + n + k`, a slack/surplus column per
//! constraint holding `1` for a `<=` constraint and `-1` for a `>=` one, and
//! the objective stored negated as the last row.  `from_parts` builds exactly
//! that shape, so a caller that starts from plain coefficient lists never has
//! to assemble (or re-check) the layout by hand.

use vstd::prelude::*;

use crate::rat::Rat;
use crate::simplex::Simplex;
use crate::simplex::SimplexMethod;

verus! {

/// One constraint handed to construction: dense coefficients for the `n`
/// decision variables, the inequality direction (`le` is true for `<=`,
/// false for `>=`), and the right-hand side.
pub struct Constraint {
    pub coeffs: Vec<Rat>,
    pub le: bool,
    pub rhs: Rat,
}

/// Everything construction needs of its inputs: shapes agree, every value is
/// a valid rational, every objective coefficient can be negated, and the row
/// width fits the machine.
pub open spec fn parts_ok(objective: Seq<Rat>, cons: Seq<Constraint>) -> bool {
    &&& 1 + objective.len() + cons.len() <= usize::MAX
    &&& forall|j: int|
        0 <= j < objective.len() ==> (#[trigger] objective[j]).wf() && objective[j].num
            > i64::MIN
    &&& forall|i: int|
        0 <= i < cons.len() ==> {
            let c = #[trigger] cons[i];
            &&& c.coeffs@.len() == objective.len()
            &&& c.rhs.wf()
            &&& forall|j: int| 0 <= j < c.coeffs@.len() ==> (#[trigger] c.coeffs@[j]).wf()
        }
}

/// Builds the canonical tableau: marker column, the constraints' coefficient
/// block, the signed slack columns, the constraint right-hand sides, and the
/// negated objective as the last row with right-hand side zero.  Returns
/// `None` exactly when the inputs break `parts_ok`.
pub fn from_parts(action: SimplexMethod, objective: &Vec<Rat>, cons: &Vec<Constraint>) -> (r:
    Option<Simplex>)
    ensures
        r is Some <==> parts_ok(objective@, cons@),
        match r {
            Some(s) => {
                &&& s.wf()
                &&& s.action == action
                &&& s.n == objective@.len()
                &&& s.k == cons@.len()
                &&& forall|i: int| 0 <= i < s.k ==> (#[trigger] s.names@[i]) == 0
                &&& forall|i: int| 0 <= i < s.k ==> (#[trigger] s.res@[i]) == cons@[i].rhs
                &&& s.res@[s.k as int] == (Rat { num: 0, den: 1 })
                &&& forall|i: int|
                    0 <= i < s.k ==> (#[trigger] s.at(i, 0)) == (Rat { num: 0, den: 1 })
                &&& forall|i: int, j: int|
                    0 <= i < s.k && 1 <= j <= s.n ==> (#[trigger] s.at(i, j)) == cons@[i].coeffs@[j
                        - 1]
                &&& forall|i: int, t: int|
                    0 <= i < s.k && 0 <= t < s.k ==> (#[trigger] s.at(i, 1 + s.n + t)) == (if t == i
                        {
                        if cons@[i].le {
                            Rat { num: 1, den: 1 }
                        } else {
                            Rat { num: -1i64, den: 1 }
                        }
                    } else {
                        Rat { num: 0, den: 1 }
                    })
                &&& s.at(s.k as int, 0) == (Rat { num: 1, den: 1 })
                &&& forall|j: int|
                    1 <= j <= s.n ==> (#[trigger] s.at(s.k as int, j)).num == -objective@[j - 1].num
                        && s.at(s.k as int, j).den == objective@[j - 1].den
                &&& forall|t: int|
                    0 <= t < s.k ==> (#[trigger] s.at(s.k as int, 1 + s.n + t)) == (Rat {
                        num: 0,
                        den: 1,
                    })
                &&& ((forall|i: int| 0 <= i < cons@.len() ==> (#[trigger] cons@[i]).rhs.num >= 0)
                    ==> s.feasible())
            },
            None => true,
        },
{
    let n = objective.len();
    let k = cons.len();
    if k > usize::MAX - 1 || n > usize::MAX - 1 - k {
        return None;
    }
    let w = 1 + n + k;

    // validate the inputs, so that failure is reported before anything is
    // assembled
    let mut j: usize = 0;
    while j < n
        invariant
            n == objective@.len(),
            j <= n,
            forall|q: int|
                0 <= q < j ==> (#[trigger] objective@[q]).wf() && objective@[q].num > i64::MIN,
        decreases n - j,
    {
        if objective[j].den <= 0 || objective[j].num == i64::MIN {
            return None;
        }
        j += 1;
    }
    let mut i: usize = 0;
    while i < k
        invariant
            n == objective@.len(),
            k == cons@.len(),
            i <= k,
            forall|q: int|
                0 <= q < i ==> {
                    let c = #[trigger] cons@[q];
                    &&& c.coeffs@.len() == n
                    &&& c.rhs.wf()
                    &&& forall|t: int| 0 <= t < c.coeffs@.len() ==> (#[trigger] c.coeffs@[t]).wf()
                },
        decreases k - i,
    {
        if cons[i].coeffs.len() != n || cons[i].rhs.den <= 0 {
            return None;
        }
        let mut t: usize = 0;
        while t < n
            invariant
                k == cons@.len(),
                i < k,
                n == cons@[i as int].coeffs@.len(),
                t <= n,
                forall|q: int| 0 <= q < t ==> (#[trigger] cons@[i as int].coeffs@[q]).wf(),
            decreases n - t,
        {
            if cons[i].coeffs[t].den <= 0 {
                return None;
            }
            t += 1;
        }
        i += 1;
    }
    proof {
        assert(parts_ok(objective@, cons@));
    }

    // assemble the constraint rows
    let mut mat: Vec<Vec<Rat>> = Vec::new();
    let mut res: Vec<Rat> = Vec::new();
    let mut names: Vec<usize> = Vec::new();
    let mut i: usize = 0;
    while i < k
        invariant
            parts_ok(objective@, cons@),
            n == objective@.len(),
            k == cons@.len(),
            w == 1 + n + k,
            i <= k,
            mat@.len() == i,
            res@.len() == i,
            names@.len() == i,
            forall|q: int| 0 <= q < i ==> (#[trigger] mat@[q])@.len() == w,
            forall|q: int| 0 <= q < i ==> (#[trigger] names@[q]) == 0,
            forall|q: int| 0 <= q < i ==> (#[trigger] res@[q]) == cons@[q].rhs,
            forall|q: int| 0 <= q < i ==> (#[trigger] mat@[q]@[0]) == (Rat { num: 0, den: 1 }),
            forall|q: int, j2: int|
                0 <= q < i && 1 <= j2 <= n ==> (#[trigger] mat@[q]@[j2]) == cons@[q].coeffs@[j2
                    - 1],
            forall|q: int, j2: int|
                0 <= q < i && 1 + n <= j2 < w ==> (#[trigger] mat@[q]@[j2]) == (if j2 - 1 - n == q {
                    if cons@[q].le {
                        Rat { num: 1, den: 1 }
                    } else {
                        Rat { num: -1i64, den: 1 }
                    }
                } else {
                    Rat { num: 0, den: 1 }
                }),
        decreases k - i,
    {
        let mut row: Vec<Rat> = Vec::new();
        row.push(Rat::from_int(0));
        let mut j2: usize = 0;
        while j2 < n
            invariant
                parts_ok(objective@, cons@),
                n == objective@.len(),
                k == cons@.len(),
                i < k,
                j2 <= n,
                row@.len() == 1 + j2,
                row@[0] == (Rat { num: 0, den: 1 }),
                forall|q: int|
                    1 <= q < 1 + j2 ==> (#[trigger] row@[q]) == cons@[i as int].coeffs@[q - 1],
            decreases n - j2,
        {
            row.push(cons[i].coeffs[j2]);
            j2 += 1;
        }
        let mut t2: usize = 0;
        while t2 < k
            invariant
                k == cons@.len(),
                i < k,
                n == objective@.len(),
                parts_ok(objective@, cons@),
                t2 <= k,
                row@.len() == 1 + n + t2,
                row@[0] == (Rat { num: 0, den: 1 }),
                forall|q: int|
                    1 <= q < 1 + n ==> (#[trigger] row@[q]) == cons@[i as int].coeffs@[q - 1],
                forall|q: int|
                    1 + n <= q < 1 + n + t2 ==> (#[trigger] row@[q]) == (if q - 1 - n == i {
                        if cons@[i as int].le {
                            Rat { num: 1, den: 1 }
                        } else {
                            Rat { num: -1i64, den: 1 }
                        }
                    } else {
                        Rat { num: 0, den: 1 }
                    }),
            decreases k - t2,
        {
            if t2 == i {
                if cons[i].le {
                    row.push(Rat::from_int(1));
                } else {
                    row.push(Rat::from_int(-1));
                }
            } else {
                row.push(Rat::from_int(0));
            }
            t2 += 1;
        }
        mat.push(row);
        res.push(cons[i].rhs);
        names.push(0);
        i += 1;
    }

    // assemble the objective row, negated, with zero slack entries
    let mut orow: Vec<Rat> = Vec::new();
    orow.push(Rat::from_int(1));
    let mut j2: usize = 0;
    while j2 < n
        invariant
            parts_ok(objective@, cons@),
            n == objective@.len(),
            j2 <= n,
            orow@.len() == 1 + j2,
            orow@[0] == (Rat { num: 1, den: 1 }),
            forall|q: int|
                1 <= q < 1 + j2 ==> (#[trigger] orow@[q]).num == -objective@[q - 1].num
                    && orow@[q].den == objective@[q - 1].den,
        decreases n - j2,
    {
        proof {
            assert(objective@[j2 as int].wf() && objective@[j2 as int].num > i64::MIN);
        }
        let v = objective[j2];
        orow.push(Rat { num: -v.num, den: v.den });
        j2 += 1;
    }
    let mut t2: usize = 0;
    while t2 < k
        invariant
            n == objective@.len(),
            k == cons@.len(),
            t2 <= k,
            orow@.len() == 1 + n + t2,
            orow@[0] == (Rat { num: 1, den: 1 }),
            forall|q: int|
                1 <= q < 1 + n ==> (#[trigger] orow@[q]).num == -objective@[q - 1].num
                    && orow@[q].den == objective@[q - 1].den,
            forall|q: int|
                1 + n <= q < 1 + n + t2 ==> (#[trigger] orow@[q]) == (Rat { num: 0, den: 1 }),
        decreases k - t2,
    {
        orow.push(Rat::from_int(0));
        t2 += 1;
    }
    mat.push(orow);
    res.push(Rat::from_int(0));

    let s = Simplex { mat, action, res, n, k, names };
    proof {
        assert forall|q: int, j3: int|
            0 <= q < s.mat@.len() && 0 <= j3 < s.width() implies (#[trigger] s.at(q, j3)).wf() by {
            assert(s.at(q, j3) == s.mat@[q]@[j3]);
            if q < k {
                assert(cons@[q].coeffs@.len() == n);
                if 1 <= j3 <= n {
                    assert(cons@[q].coeffs@[j3 - 1].wf());
                }
            } else {
                if 1 <= j3 <= n {
                    assert(objective@[j3 - 1].wf());
                }
            }
        }
        assert(s.wf());
        assert forall|q: int, t: int|
            0 <= q < s.k && 0 <= t < s.k implies (#[trigger] s.at(q, 1 + s.n + t)) == (if t == q {
            if cons@[q].le {
                Rat { num: 1, den: 1 }
            } else {
                Rat { num: -1i64, den: 1 }
            }
        } else {
            Rat { num: 0, den: 1 }
        }) by {
            assert(s.mat@[q]@[1 + n + t] == (if (1 + n + t) - 1 - n == q {
                if cons@[q].le {
                    Rat { num: 1, den: 1 }
                } else {
                    Rat { num: -1i64, den: 1 }
                }
            } else {
                Rat { num: 0, den: 1 }
            }));
        }
        assert forall|t: int|
            0 <= t < s.k implies (#[trigger] s.at(s.k as int, 1 + s.n + t)) == (Rat {
            num: 0,
            den: 1,
        }) by {
            assert(s.mat@[k as int]@[1 + n + t] == (Rat { num: 0, den: 1 }));
        }
    }
    Some(s)
}

} // verus!
