use schedule_api::data::even_odd::{EvenOdd as NumericEvenOdd, Value};
use schedule_api::data::{
    from_week_ranges, marker_from_columns, schedule_from_entries, EvenOdd, PortableScheduleEntry, Range, Schedule,
};
use schedule_api::number::IntErrorKind;
use schedule_api::serialization::deserialize_even_odd;

fn r(start: i32, end: i32) -> Range {
    Range { start, end }
}

#[test]
fn week_list_of_ranges_and_single_weeks() {
    assert_eq!(from_week_ranges("1-8,10,12-16"), Ok(vec![r(1, 8), r(10, 10), r(12, 16)]));
    assert_eq!(from_week_ranges("5"), Ok(vec![r(5, 5)]));
    assert_eq!(from_week_ranges("+3"), Ok(vec![r(3, 3)]));
    assert_eq!(from_week_ranges("1-2-3"), Ok(vec![r(1, 2)]));
}

#[test]
fn week_list_all_means_every_week() {
    assert_eq!(from_week_ranges("all"), Ok(vec![r(0, 255)]));
    assert_eq!(from_week_ranges("1-4,all,x"), Ok(vec![r(0, 255)]));
}

#[test]
fn week_list_errors() {
    assert_eq!(from_week_ranges(""), Err(IntErrorKind::Empty));
    assert_eq!(from_week_ranges("5-"), Err(IntErrorKind::Empty));
    assert_eq!(from_week_ranges("-5"), Err(IntErrorKind::Empty));
    assert_eq!(from_week_ranges("x,all"), Err(IntErrorKind::InvalidDigit));
    assert_eq!(from_week_ranges("1, 2"), Err(IntErrorKind::InvalidDigit));
    assert_eq!(from_week_ranges("3000000000"), Err(IntErrorKind::PosOverflow));
    // week numbers are u8: 0 to 255
    assert_eq!(from_week_ranges("300"), Err(IntErrorKind::PosOverflow));
    assert_eq!(from_week_ranges("1-256"), Err(IntErrorKind::PosOverflow));
    assert_eq!(from_week_ranges("0-255"), Ok(vec![r(0, 255)]));
    assert_eq!(IntErrorKind::InvalidDigit.message(), "invalid digit found in string");
}

#[test]
fn even_odd_labels() {
    assert_eq!(EvenOdd::No.label(), "none");
    assert_eq!(EvenOdd::Even.label(), "true");
    assert_eq!(EvenOdd::Odd.label(), "false");
    assert_eq!(EvenOdd::from_label("Ч"), EvenOdd::Even);
    assert_eq!(EvenOdd::from_label("Н"), EvenOdd::Odd);
    assert_eq!(EvenOdd::from_label("true"), EvenOdd::Even);
    assert_eq!(EvenOdd::from_label("false"), EvenOdd::Odd);
    assert_eq!(EvenOdd::from_label(""), EvenOdd::No);
    assert_eq!(EvenOdd::from_label("TRUE"), EvenOdd::No);
}

#[test]
fn even_odd_label_round_trip() {
    for e in [EvenOdd::No, EvenOdd::Even, EvenOdd::Odd] {
        assert_eq!(EvenOdd::from_label(e.label()), e);
    }
}

#[test]
fn numeric_even_odd_marker() {
    assert_eq!(deserialize_even_odd("Ч"), NumericEvenOdd { value: 1 });
    assert_eq!(deserialize_even_odd("false"), NumericEvenOdd { value: 2 });
    assert_eq!(deserialize_even_odd("whatever"), NumericEvenOdd { value: 0 });
    assert_eq!(Value::EVEN.code(), 1);
    assert_eq!(Value::NONE.code(), 0);
    assert_eq!(Value::ODD.code(), 2);
}

#[test]
fn imported_rows_become_lessons_in_order() {
    let rows = vec![
        PortableScheduleEntry {
            day: 1,
            num: 2,
            week_ranges: vec![r(1, 4)],
            name: "Math".into(),
            lesson_type: Some("lecture".into()),
            teacher: None,
            auditorium: "101".into(),
            even_odd: EvenOdd::Even,
        },
        PortableScheduleEntry {
            day: 7,
            num: 255,
            week_ranges: vec![],
            name: "Art".into(),
            lesson_type: None,
            teacher: Some("AB".into()),
            auditorium: "Hall".into(),
            even_odd: EvenOdd::No,
        },
    ];
    let s: Vec<Schedule> = schedule_from_entries(rows);
    assert_eq!(s.len(), 2);
    assert_eq!((s[0].day, s[0].num, s[0].name.as_str()), (1, 2, "Math"));
    assert_eq!(s[0].week_ranges, vec![r(1, 4)]);
    assert_eq!(s[0].lesson_type.as_deref(), Some("lecture"));
    assert_eq!(s[0].even_odd, EvenOdd::Even);
    assert_eq!((s[1].day, s[1].num, s[1].auditorium.as_str()), (7, 255, "Hall"));
    assert_eq!(s[1].teacher.as_deref(), Some("AB"));
}

#[test]
fn marker_from_csv_columns() {
    assert_eq!(marker_from_columns(Some(EvenOdd::Odd), Some(true), None), EvenOdd::Odd);
    assert_eq!(marker_from_columns(None, Some(true), None), EvenOdd::Even);
    assert_eq!(marker_from_columns(None, Some(true), Some(false)), EvenOdd::Even);
    assert_eq!(marker_from_columns(None, None, Some(true)), EvenOdd::Odd);
    assert_eq!(marker_from_columns(None, Some(true), Some(true)), EvenOdd::No);
    assert_eq!(marker_from_columns(None, None, None), EvenOdd::No);
}
