use tabular::grades::{calculate_grade, calculate_percentage, evaluate_marks, Percentage};

#[test]
fn percentage_is_exact_ratio() {
    let marks: Vec<u16> = vec![80, 90, 100];
    let p = calculate_percentage(&marks).unwrap();
    assert_eq!(p.total, 270);
    assert_eq!(p.count, 3);
}

#[test]
fn empty_marks_have_no_percentage() {
    let marks: Vec<u16> = vec![];
    assert!(calculate_percentage(&marks).is_none());
    assert!(evaluate_marks(&marks).is_none());
}

#[test]
fn grade_thresholds() {
    // 90.0 -> 'A'
    assert_eq!(calculate_grade(&Percentage { total: 90, count: 1 }), 'A');
    // 89.999 -> 'B'
    assert_eq!(calculate_grade(&Percentage { total: 89999, count: 1000 }), 'B');
    // 80.0 -> 'B', 79.999 -> 'C'
    assert_eq!(calculate_grade(&Percentage { total: 80, count: 1 }), 'B');
    assert_eq!(calculate_grade(&Percentage { total: 79999, count: 1000 }), 'C');
    // 70.0 -> 'C', 69.999 -> 'D'
    assert_eq!(calculate_grade(&Percentage { total: 70, count: 1 }), 'C');
    assert_eq!(calculate_grade(&Percentage { total: 69999, count: 1000 }), 'D');
    // 60.0 -> 'D'
    assert_eq!(calculate_grade(&Percentage { total: 60, count: 1 }), 'D');
    // 59.999 -> 'F'
    assert_eq!(calculate_grade(&Percentage { total: 59999, count: 1000 }), 'F');
    // 0 -> 'F'
    assert_eq!(calculate_grade(&Percentage { total: 0, count: 1 }), 'F');
}

#[test]
fn evaluate_marks_gives_percentage_and_grade() {
    let marks: Vec<u16> = vec![80, 90, 100];
    let (p, g) = evaluate_marks(&marks).unwrap();
    // average is exactly 90, which earns the 'A'
    assert_eq!(p.total, 270);
    assert_eq!(p.count, 3);
    assert_eq!(g, 'A');

    let marks2: Vec<u16> = vec![50, 60];
    let (p2, g2) = evaluate_marks(&marks2).unwrap();
    assert_eq!(p2.total, 110);
    assert_eq!(p2.count, 2);
    assert_eq!(g2, 'F');
}
