use schedule_api::data::{EvenOdd, Range, Schedule, ScheduleEntry};
use schedule_api::timetable::{schedule_for_week, week_days};

fn lesson(day: i32, num: i32, name: &str, ranges: Vec<(i32, i32)>, even_odd: EvenOdd) -> Schedule {
    Schedule {
        day,
        num,
        week_ranges: ranges.into_iter().map(|(start, end)| Range { start, end }).collect(),
        name: name.to_string(),
        lesson_type: Some("lab".to_string()),
        teacher: None,
        auditorium: format!("room {}", name),
        even_odd,
    }
}

fn names(day: &[ScheduleEntry]) -> Vec<String> {
    day.iter()
        .map(|e| match (&e.name, e.empty) {
            (Some(n), None) => n.clone(),
            (None, Some(true)) => "-".to_string(),
            _ => panic!("slot is neither a lesson nor empty"),
        })
        .collect()
}

#[test]
fn no_schedule_gives_one_empty_day() {
    let days = schedule_for_week(&None, 3);
    assert_eq!(days.len(), 1);
    assert!(days[0].is_empty());
}

#[test]
fn always_seven_days() {
    assert_eq!(week_days(&vec![], 1).len(), 7);
    let days = schedule_for_week(&Some(vec![]), 1);
    assert_eq!(days.len(), 7);
    assert!(days.iter().all(|d| d.is_empty()));
}

#[test]
fn lessons_are_placed_in_their_numbered_slots() {
    let s = vec![
        lesson(1, 3, "C", vec![(1, 10)], EvenOdd::No),
        lesson(1, 1, "A", vec![(1, 10)], EvenOdd::No),
        lesson(2, 2, "B", vec![(1, 10)], EvenOdd::No),
    ];
    let days = week_days(&s, 5);
    assert_eq!(names(&days[0]), vec!["A", "-", "C"]);
    assert_eq!(names(&days[1]), vec!["-", "B"]);
    for d in 2..7 {
        assert!(days[d].is_empty());
    }
    let c = &days[0][2];
    assert_eq!(c.lesson_type.as_deref(), Some("lab"));
    assert_eq!(c.auditorium.as_deref(), Some("room C"));
    assert_eq!(c.teacher, None);
    let gap = &days[0][1];
    assert_eq!((gap.name.clone(), gap.lesson_type.clone(), gap.auditorium.clone()), (None, None, None));
}

#[test]
fn week_ranges_and_parity_select_lessons() {
    let s = vec![
        lesson(3, 1, "Even", vec![(1, 20)], EvenOdd::Even),
        lesson(3, 2, "Odd", vec![(1, 20)], EvenOdd::Odd),
        lesson(3, 3, "Late", vec![(15, 20)], EvenOdd::No),
        lesson(3, 4, "Split", vec![(1, 2), (6, 6)], EvenOdd::No),
    ];
    assert_eq!(names(&week_days(&s, 6)[2]), vec!["Even", "-", "-", "Split"]);
    assert_eq!(names(&week_days(&s, 7)[2]), vec!["-", "Odd"]);
    assert_eq!(names(&week_days(&s, 16)[2]), vec!["Even", "-", "Late"]);
    assert!(week_days(&s, 21)[2].is_empty());
    // negative odd week numbers count as odd
    let neg = vec![lesson(1, 1, "Odd", vec![(-5, 5)], EvenOdd::Odd)];
    assert_eq!(names(&week_days(&neg, -3)[0]), vec!["Odd"]);
    assert!(week_days(&neg, -2)[0].is_empty());
}

#[test]
fn equal_numbers_keep_their_order() {
    let s = vec![
        lesson(4, 2, "First", vec![(1, 1)], EvenOdd::No),
        lesson(4, 1, "Early", vec![(1, 1)], EvenOdd::No),
        lesson(4, 2, "Second", vec![(1, 1)], EvenOdd::No),
    ];
    assert_eq!(names(&week_days(&s, 1)[3]), vec!["Early", "First", "Second"]);
}

#[test]
fn lessons_numbered_below_one_take_the_next_slot() {
    let s = vec![
        lesson(5, 0, "Zero", vec![(1, 1)], EvenOdd::No),
        lesson(5, 2, "Two", vec![(1, 1)], EvenOdd::No),
    ];
    assert_eq!(names(&week_days(&s, 1)[4]), vec!["Zero", "Two"]);
}

#[test]
fn days_outside_one_to_seven_are_not_shown() {
    let s = vec![lesson(0, 1, "Zero", vec![(1, 1)], EvenOdd::No), lesson(8, 1, "Eight", vec![(1, 1)], EvenOdd::No)];
    assert!(week_days(&s, 1).iter().all(|d| d.is_empty()));
}
