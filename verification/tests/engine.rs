use rsimpl::from_parts;
use rsimpl::Constraint;
use rsimpl::Rat;
use rsimpl::Simplex;
use rsimpl::SimplexError;
use rsimpl::SimplexMethod;

fn rat(n: i64, d: i64) -> Rat {
    Rat::new(n, d)
}

fn irow(v: &[i64]) -> Vec<Rat> {
    v.iter().map(|x| Rat::from_int(*x)).collect()
}

fn ires(v: &[i64]) -> Vec<Rat> {
    irow(v)
}

/// The rational `a` has the value `n / d`.
fn has_value(a: Rat, n: i64, d: i64) -> bool {
    (a.num as i128) * (d as i128) == (n as i128) * (a.den as i128)
}

fn tableau(action: SimplexMethod, n: usize, rows: &[&[i64]], res: &[i64]) -> Simplex {
    let k = rows.len() - 1;
    Simplex {
        mat: rows.iter().map(|r| irow(r)).collect(),
        action,
        res: ires(res),
        n,
        k,
        names: vec![0; k],
    }
}

#[test]
fn method_tokens() {
    assert!(matches!(SimplexMethod::new("max"), SimplexMethod::Max));
    assert!(matches!(SimplexMethod::new("min"), SimplexMethod::Min));
    assert!(matches!(SimplexMethod::new("MAX"), SimplexMethod::Unspecified));
    assert!(matches!(SimplexMethod::new(""), SimplexMethod::Unspecified));
    assert!(matches!(SimplexMethod::new("maximize"), SimplexMethod::Unspecified));
}

#[test]
fn push_and_pop() {
    let mut s = Simplex::new();
    let row = irow(&[0, 1, 2]);
    s.push(row.clone());
    assert_eq!(s.mat.len(), 1);
    let back = s.pop();
    assert_eq!(back, Some(row));
    assert_eq!(s.pop(), None);
}

/// Maximize 3x1 + 2x2 with x1 + x2 <= 4 and x1 + 3x2 <= 6:
/// the optimum is x1 = 4, x2 = 0 with objective value 12.
#[test]
fn scenario_textbook_maximize() {
    let mut s = tableau(
        SimplexMethod::Max,
        2,
        &[&[0, 1, 1, 1, 0], &[0, 1, 3, 0, 1], &[1, -3, -2, 0, 0]],
        &[4, 6, 0],
    );
    assert!(s.check_wf());
    assert!(s.check_feasible());
    let sol = s.run().unwrap().unwrap();
    assert_eq!(sol.len(), 3);
    assert!(has_value(sol[0], 12, 1));
    assert!(has_value(sol[1], 4, 1));
    assert!(has_value(sol[2], 0, 1));
}

/// Maximize 2x1 + 3x2 with x1 + 2x2 <= 14, 3x1 - x2 >= 0, x1 - x2 <= 2:
/// bounded, with optimum x1 = 6, x2 = 4 and objective value 24.
#[test]
fn scenario_bounded_with_surplus() {
    let mut s = tableau(
        SimplexMethod::Max,
        2,
        &[
            &[0, 1, 2, 1, 0, 0],
            &[0, 3, -1, 0, -1, 0],
            &[0, 1, -1, 0, 0, 1],
            &[1, -2, -3, 0, 0, 0],
        ],
        &[14, 0, 2, 0],
    );
    assert!(s.check_wf());
    assert!(s.check_feasible());
    let sol = s.run().unwrap().unwrap();
    assert_eq!(sol.len(), 3);
    assert!(has_value(sol[0], 24, 1));
    assert!(has_value(sol[1], 6, 1));
    assert!(has_value(sol[2], 4, 1));
    // every constraint right-hand side stayed non-negative along the run
    assert!(s.check_feasible());
}

/// Maximize x1 with only x1 - x2 <= 1: after the first pivot no row is
/// eligible for the entering column, so the run reports unboundedness.
#[test]
fn scenario_unbounded() {
    let mut s = tableau(
        SimplexMethod::Max,
        2,
        &[&[0, 1, -1, 1], &[1, -1, 0, 0]],
        &[1, 0],
    );
    assert!(s.check_wf());
    assert!(s.check_feasible());
    assert_eq!(s.run(), Err(SimplexError::Unbounded));
}

/// Minimize x1 + x2 with x1 + x2 >= 2: the minimization rules mirror a
/// maximization of -x1 - x2, producing the same (empty) pivot sequence and
/// the same extracted solution.
#[test]
fn scenario_minimize_mirror() {
    let mut mn = tableau(
        SimplexMethod::Min,
        2,
        &[&[0, 1, 1, -1], &[1, -1, -1, 0]],
        &[2, 0],
    );
    let mn_mat = mn.mat.clone();
    let mn_names = mn.names.clone();
    assert!(mn.check_wf());
    assert!(mn.check_feasible());
    let mn_sol = mn.run().unwrap().unwrap();
    // no pivot was performed: the tableau is untouched
    assert_eq!(mn.mat, mn_mat);
    assert_eq!(mn.names, mn_names);

    let mut mx = tableau(
        SimplexMethod::Max,
        2,
        &[&[0, 1, 1, -1], &[1, 1, 1, 0]],
        &[2, 0],
    );
    let mx_names = mx.names.clone();
    let mx_sol = mx.run().unwrap().unwrap();
    assert_eq!(mx.names, mx_names);

    assert_eq!(mn_sol.len(), mx_sol.len());
    for (a, b) in mn_sol.iter().zip(mx_sol.iter()) {
        assert!((a.num as i128) * (b.den as i128) == (b.num as i128) * (a.den as i128));
    }
    assert!(has_value(mn_sol[0], 0, 1));
    assert!(has_value(mn_sol[1], 0, 1));
    assert!(has_value(mn_sol[2], 0, 1));
}

/// Construction from plain parts produces the documented canonical layout
/// and solves to the same optimum as the hand-built tableau.
#[test]
fn construction_from_parts() {
    let objective = vec![Rat::from_int(3), Rat::from_int(2)];
    let cons = vec![
        Constraint { coeffs: irow(&[1, 1]), le: true, rhs: Rat::from_int(4) },
        Constraint { coeffs: irow(&[1, 3]), le: true, rhs: Rat::from_int(6) },
    ];
    let mut s = from_parts(SimplexMethod::Max, &objective, &cons).unwrap();
    assert!(s.check_wf());
    assert!(s.check_feasible());
    assert_eq!(s.mat[0], irow(&[0, 1, 1, 1, 0]));
    assert_eq!(s.mat[1], irow(&[0, 1, 3, 0, 1]));
    assert_eq!(s.mat[2], irow(&[1, -3, -2, 0, 0]));
    assert_eq!(s.res, ires(&[4, 6, 0]));
    let sol = s.run().unwrap().unwrap();
    assert!(has_value(sol[0], 12, 1));
    assert!(has_value(sol[1], 4, 1));
    assert!(has_value(sol[2], 0, 1));
}

/// Construction of a `>=` constraint writes `-1` into its surplus column.
#[test]
fn construction_surplus_sign() {
    let objective = vec![Rat::from_int(1), Rat::from_int(1)];
    let cons = vec![Constraint { coeffs: irow(&[1, 1]), le: false, rhs: Rat::from_int(2) }];
    let s = from_parts(SimplexMethod::Min, &objective, &cons).unwrap();
    assert_eq!(s.mat[0], irow(&[0, 1, 1, -1]));
    assert_eq!(s.mat[1], irow(&[1, -1, -1, 0]));
}

/// Construction reports malformed inputs instead of assembling a tableau.
#[test]
fn construction_rejects_bad_parts() {
    let objective = vec![Rat::from_int(3), Rat::from_int(2)];
    let ragged = vec![Constraint { coeffs: irow(&[1]), le: true, rhs: Rat::from_int(4) }];
    assert!(from_parts(SimplexMethod::Max, &objective, &ragged).is_none());
    let unnegatable = vec![Rat::new(i64::MIN, 1)];
    let ok = vec![Constraint { coeffs: irow(&[1]), le: true, rhs: Rat::from_int(4) }];
    assert!(from_parts(SimplexMethod::Max, &unnegatable, &ok).is_none());
}

/// An unrecognized direction token makes `run` return no solution and
/// perform zero pivots.
#[test]
fn no_direction_is_refused() {
    let mut s = tableau(
        SimplexMethod::new("fastest"),
        2,
        &[&[0, 1, 1, 1, 0], &[0, 1, 3, 0, 1], &[1, -3, -2, 0, 0]],
        &[4, 6, 0],
    );
    let before_mat = s.mat.clone();
    let before_res = s.res.clone();
    let before_names = s.names.clone();
    assert_eq!(s.run(), Ok(None));
    assert_eq!(s.mat, before_mat);
    assert_eq!(s.res, before_res);
    assert_eq!(s.names, before_names);
}

/// The "nothing to do" answer does not depend on feasibility: a tableau
/// with a negative right-hand side and an unrecognized direction still
/// gets its configuration-error result.
#[test]
fn no_direction_ignores_feasibility() {
    let mut s = tableau(
        SimplexMethod::Unspecified,
        2,
        &[&[0, 1, 1, 1, 0], &[0, 1, 3, 0, 1], &[1, -3, -2, 0, 0]],
        &[4, -6, 0],
    );
    assert!(!s.check_feasible());
    assert_eq!(s.run(), Ok(None));
}

/// Immediately after `pivot(row, col)` the pivot column is the unit column:
/// one in the pivot row, zero in every other row (objective row included).
#[test]
fn pivot_makes_unit_column() {
    let mut s = tableau(
        SimplexMethod::Max,
        2,
        &[&[0, 2, 1, 1, 0], &[0, 1, 3, 0, 1], &[1, -3, -2, 0, 0]],
        &[4, 6, 0],
    );
    s.pivot(0, 1).unwrap();
    assert_eq!(s.mat[0][1].num, s.mat[0][1].den);
    assert_eq!(s.mat[1][1].num, 0);
    assert_eq!(s.mat[2][1].num, 0);
    assert_eq!(s.names[0], 1);
}

/// The ratio test picks the eligible row of least ratio, first on ties, and
/// the pivot keeps every constraint right-hand side non-negative.
#[test]
fn lead_and_feasibility() {
    let mut s = tableau(
        SimplexMethod::Max,
        2,
        &[&[0, 1, 1, 1, 0], &[0, 1, 3, 0, 1], &[1, -3, -2, 0, 0]],
        &[4, 6, 0],
    );
    let (row, col) = s.lead(true).unwrap();
    assert_eq!((row, col), (0, 1));
    s.pivot(row, col).unwrap();
    assert!(s.res[0].num >= 0);
    assert!(s.res[1].num >= 0);
    assert!(has_value(s.res[1], 2, 1));
}

/// Extracting the solution twice off the same terminal tableau yields
/// identical results.
#[test]
fn extraction_is_idempotent() {
    let mut s = tableau(
        SimplexMethod::Max,
        2,
        &[&[0, 1, 1, 1, 0], &[0, 1, 3, 0, 1], &[1, -3, -2, 0, 0]],
        &[4, 6, 0],
    );
    s.run().unwrap().unwrap();
    let first = s.extract();
    let second = s.extract();
    assert_eq!(first, second);
}

/// A pivot whose exact result no longer fits the 64-bit rationals reports
/// the overflow and leaves the tableau unchanged.
#[test]
fn pivot_overflow_is_reported() {
    let mut s = tableau(SimplexMethod::Max, 1, &[&[0, 0, 1], &[1, 0, 0]], &[1, 0]);
    s.mat[0][0] = rat(i64::MAX, 1);
    s.mat[0][1] = rat(1, 3);
    let before_mat = s.mat.clone();
    let before_res = s.res.clone();
    assert_eq!(s.pivot(0, 1), Err(SimplexError::Overflow));
    assert_eq!(s.mat, before_mat);
    assert_eq!(s.res, before_res);
}

/// A run whose first pivot cannot be represented exactly reports the
/// overflow instead of a wrong number.
#[test]
fn run_overflow_is_reported() {
    let mut s = tableau(SimplexMethod::Max, 1, &[&[0, 1, 1], &[1, -1, 0]], &[1, 0]);
    s.mat[0][0] = rat(i64::MAX, 1);
    s.mat[0][1] = rat(1, 3);
    assert_eq!(s.run(), Err(SimplexError::Overflow));
}

/// After a run the basis record is truthful: every recorded basic column is
/// the unit column of its row.
#[test]
fn basis_record_is_truthful() {
    let mut s = tableau(
        SimplexMethod::Max,
        2,
        &[&[0, 1, 1, 1, 0], &[0, 1, 3, 0, 1], &[1, -3, -2, 0, 0]],
        &[4, 6, 0],
    );
    s.run().unwrap().unwrap();
    for (i, b) in s.names.iter().copied().enumerate() {
        if b >= 1 {
            assert_eq!(s.mat[i][b].num, s.mat[i][b].den);
            for r in 0..s.mat.len() {
                if r != i {
                    assert_eq!(s.mat[r][b].num, 0);
                }
            }
        }
    }
    assert_eq!(s.names[0], 1);
}

/// The run-time validators match the invariants the engine needs.
#[test]
fn validators() {
    let good = tableau(
        SimplexMethod::Max,
        2,
        &[&[0, 1, 1, 1, 0], &[0, 1, 3, 0, 1], &[1, -3, -2, 0, 0]],
        &[4, 6, 0],
    );
    assert!(good.check_wf());
    assert!(good.check_feasible());

    let mut ragged = tableau(
        SimplexMethod::Max,
        2,
        &[&[0, 1, 1, 1, 0], &[0, 1, 3, 0, 1], &[1, -3, -2, 0, 0]],
        &[4, 6, 0],
    );
    ragged.mat[1] = irow(&[0, 1]);
    assert!(!ragged.check_wf());

    let mut negative = tableau(
        SimplexMethod::Max,
        2,
        &[&[0, 1, 1, 1, 0], &[0, 1, 3, 0, 1], &[1, -3, -2, 0, 0]],
        &[4, -6, 0],
    );
    assert!(negative.check_wf());
    assert!(!negative.check_feasible());
    negative.res[1] = Rat::from_int(6);
    assert!(negative.check_feasible());
}
