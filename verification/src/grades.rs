//! Grading arithmetic for the student batch transformer: the percentage of a
//! marks list and the letter grade it earns.
//!
//! A percentage is kept as the exact ratio `total / count` instead of an
//! inexact quotient, so the threshold comparisons below are exact.

use vstd::prelude::*;

verus! {

/// A percentage as the exact ratio `total / count`.
pub struct Percentage {
    pub total: u64,
    pub count: u64,
}

/// Sum of a sequence of marks.
pub open spec fn sum_marks(marks: Seq<u16>) -> int
    decreases marks.len(),
{
    if marks.len() == 0 {
        0
    } else {
        sum_marks(marks.drop_last()) + marks.last()
    }
}

/// The letter grade of the percentage `total / count`, by the thresholds
/// 90 / 80 / 70 / 60.
pub open spec fn grade_of(total: int, count: int) -> char {
    if total >= 90 * count {
        'A'
    } else if total >= 80 * count {
        'B'
    } else if total >= 70 * count {
        'C'
    } else if total >= 60 * count {
        'D'
    } else {
        'F'
    }
}

/// The sum of `n` marks lies between 0 and `n * u16::MAX`.
pub proof fn lemma_sum_marks_bounds(marks: Seq<u16>)
    ensures
        0 <= sum_marks(marks) <= marks.len() * 0xffff,
    decreases marks.len(),
{
    if marks.len() > 0 {
        lemma_sum_marks_bounds(marks.drop_last());
        assert((marks.len() - 1) * 0xffff + 0xffff == marks.len() * 0xffff) by (nonlinear_arith);
    }
}

/// The exact percentage `sum(marks) / count(marks)` of a marks list; an
/// empty list has no percentage and yields `None` rather than dividing by
/// zero.
#[verifier::loop_isolation(false)]
pub fn calculate_percentage(marks: &Vec<u16>) -> (r: Option<Percentage>)
    requires
        marks@.len() * 0xffff <= u64::MAX,
    ensures
        match r {
            Some(p) => {
                &&& marks@.len() > 0
                &&& p.total == sum_marks(marks@)
                &&& p.count == marks@.len()
            },
            None => marks@.len() == 0,
        },
{
    if marks.len() == 0 {
        return None;
    }
    let mut total: u64 = 0;
    let n = marks.len();
    let mut i: usize = 0;
    while i < n
        invariant
            i <= n,
            total as int == sum_marks(marks@.take(i as int)),
            total <= i * 0xffff,
        decreases n - i,
    {
        proof {
            assert(marks@.take(i + 1).drop_last() =~= marks@.take(i as int));
            assert((i + 1) * 0xffff == i * 0xffff + 0xffff) by (nonlinear_arith);
            assert(i * 0xffff <= marks@.len() * 0xffff) by (nonlinear_arith)
                requires i < marks@.len();
        }
        total = total + marks[i] as u64;
        i = i + 1;
    }
    proof {
        assert(marks@.take(n as int) =~= marks@);
    }
    Some(Percentage { total, count: n as u64 })
}

/// The letter grade for a percentage, by the thresholds 90 / 80 / 70 / 60.
pub fn calculate_grade(p: &Percentage) -> (g: char)
    requires
        p.count > 0,
    ensures
        g == grade_of(p.total as int, p.count as int),
{
    let total = p.total as u128;
    let count = p.count as u128;
    if total >= 90 * count {
        'A'
    } else if total >= 80 * count {
        'B'
    } else if total >= 70 * count {
        'C'
    } else if total >= 60 * count {
        'D'
    } else {
        'F'
    }
}

/// Percentage and grade for one student's marks, as the batch transformer
/// derives them; `None` exactly when the marks list is empty.
pub fn evaluate_marks(marks: &Vec<u16>) -> (r: Option<(Percentage, char)>)
    requires
        marks@.len() * 0xffff <= u64::MAX,
    ensures
        match r {
            Some(pg) => {
                &&& marks@.len() > 0
                &&& pg.0.total == sum_marks(marks@)
                &&& pg.0.count == marks@.len()
                &&& pg.1 == grade_of(sum_marks(marks@), marks@.len() as int)
            },
            None => marks@.len() == 0,
        },
{
    match calculate_percentage(marks) {
        None => None,
        Some(p) => {
            let g = calculate_grade(&p);
            Some((p, g))
        },
    }
}

} // verus!
