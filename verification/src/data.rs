//! The schedule's data model: lessons, week ranges, the even/odd week
//! marker, the configuration, and the replies of the API.
pub mod config;
pub mod dogfood;
pub mod even_odd;
pub mod messages;
pub mod records;
pub mod requests;

use vstd::prelude::*;

use crate::number::{
    digits_of, is_digit, lemma_digits_of, lemma_parse_uint_digits, parse_u8, parse_u8_spec,
    IntErrorKind,
};
use crate::text::{
    chars_eq, chars_of, lemma_find_first, lemma_find_none, occurs_at, split_by, split_chars,
    split_from, views,
};

verus! {

/// On which weeks of a range a lesson takes place.
#[derive(Clone, Copy, Debug, PartialEq, Eq, Structural)]
pub enum EvenOdd {
    /// Every week.
    No,
    /// Even-numbered weeks only.
    Even,
    /// Odd-numbered weeks only.
    Odd,
}

/// The text that stands for each marker: `"none"`, `"true"`, `"false"`.
pub open spec fn even_odd_label(e: EvenOdd) -> Seq<char> {
    match e {
        EvenOdd::No => "none"@,
        EvenOdd::Even => "true"@,
        EvenOdd::Odd => "false"@,
    }
}

/// The marker that a text stands for: `Ч` and `true` mark even weeks,
/// `Н` and `false` odd weeks, anything else every week.
pub open spec fn even_odd_from_label(s: Seq<char>) -> EvenOdd {
    if s == seq!['Ч'] || s == seq!['t', 'r', 'u', 'e'] {
        EvenOdd::Even
    } else if s == seq!['Н'] || s == seq!['f', 'a', 'l', 's', 'e'] {
        EvenOdd::Odd
    } else {
        EvenOdd::No
    }
}

impl EvenOdd {
    /// The text this marker is written as.
    pub fn label(&self) -> (s: &'static str)
        ensures
            s@ == even_odd_label(*self),
    {
        match self {
            EvenOdd::No => "none",
            EvenOdd::Even => "true",
            EvenOdd::Odd => "false",
        }
    }

    /// Reads a marker from its text; unknown text marks every week.
    pub fn from_label(s: &str) -> (e: EvenOdd)
        ensures
            e == even_odd_from_label(s@),
    {
        let v = chars_of(s);
        let even_mark = vec!['Ч'];
        let even_word = vec!['t', 'r', 'u', 'e'];
        let odd_mark = vec!['Н'];
        let odd_word = vec!['f', 'a', 'l', 's', 'e'];
        assert(even_mark@ =~= seq!['Ч']);
        assert(even_word@ =~= seq!['t', 'r', 'u', 'e']);
        assert(odd_mark@ =~= seq!['Н']);
        assert(odd_word@ =~= seq!['f', 'a', 'l', 's', 'e']);
        if chars_eq(&v, &even_mark) || chars_eq(&v, &even_word) {
            EvenOdd::Even
        } else if chars_eq(&v, &odd_mark) || chars_eq(&v, &odd_word) {
            EvenOdd::Odd
        } else {
            EvenOdd::No
        }
    }
}

/// The marker of a CSV row: its `even_odd` label when the row has one;
/// else its `even` and `odd` flags: `even` alone set marks even weeks,
/// `odd` alone set marks odd weeks, neither or both mark every week.
pub open spec fn marker_of_columns(label: Option<EvenOdd>, even: Option<bool>, odd: Option<bool>) -> EvenOdd {
    if label is Some {
        label->0
    } else if (even == Some(true)) == (odd == Some(true)) {
        EvenOdd::No
    } else if even == Some(true) {
        EvenOdd::Even
    } else {
        EvenOdd::Odd
    }
}

/// Reads the marker of a CSV row from its `even_odd` label or its
/// `even`/`odd` flags.
pub fn marker_from_columns(label: Option<EvenOdd>, even: Option<bool>, odd: Option<bool>) -> (e: EvenOdd)
    ensures
        e == marker_of_columns(label, even, odd),
{
    match label {
        Some(e) => e,
        None => {
            let ev = even == Some(true);
            let od = odd == Some(true);
            if ev && !od {
                EvenOdd::Even
            } else if od && !ev {
                EvenOdd::Odd
            } else {
                EvenOdd::No
            }
        },
    }
}

/// Law: reading back the text of a marker gives the same marker.
pub proof fn lemma_even_odd_label_round_trip(e: EvenOdd)
    ensures
        even_odd_from_label(even_odd_label(e)) == e,
{
    reveal_strlit("none");
    reveal_strlit("true");
    reveal_strlit("false");
    assert("true"@ =~= seq!['t', 'r', 'u', 'e']);
    assert("false"@ =~= seq!['f', 'a', 'l', 's', 'e']);
    assert("none"@.len() == 4);
    assert("none"@ != seq!['t', 'r', 'u', 'e']) by {
        assert("none"@[0] != 't');
    }
}

/// Law: a row's `even_odd` label decides its marker when present; without
/// one, a row whose `odd` flag is true and whose `even` flag is not marks
/// odd weeks, and the other way round even weeks, whether or not the other
/// column is present; when both flags are true, or neither is, the lesson
/// takes place every week.
pub proof fn lemma_marker_of_columns(label: Option<EvenOdd>, even: Option<bool>, odd: Option<bool>)
    ensures
        label matches Some(e) ==> marker_of_columns(label, even, odd) == e,
        label is None && odd == Some(true) && even != Some(true) ==> marker_of_columns(
            label,
            even,
            odd,
        ) == EvenOdd::Odd,
        label is None && even == Some(true) && odd != Some(true) ==> marker_of_columns(
            label,
            even,
            odd,
        ) == EvenOdd::Even,
        label is None && (even == Some(true)) == (odd == Some(true)) ==> marker_of_columns(
            label,
            even,
            odd,
        ) == EvenOdd::No,
{
}

/// Law: a week list with no `all` item that reads without error gives one
/// range per comma-separated item, in order, each the range that its item
/// spells; a list whose first `all` item comes after valid items only gives
/// the single range of every week, `0..=255`.
pub proof fn lemma_week_list(data: Seq<char>)
    ensures
        ({
            let ws = split_by(data, seq![',']);
            (forall|j: int| 0 <= j < ws.len() ==> #[trigger] ws[j] != seq!['a', 'l', 'l'])
                ==> (week_ranges_of(data) matches Ok(v) ==> v.len() == ws.len() && forall|j: int|
                0 <= j < ws.len() ==> week_item(#[trigger] ws[j]) == Ok::<
                (int, int),
                IntErrorKind,
            >(v[j]))
        }),
        ({
            let ws = split_by(data, seq![',']);
            forall|a: int|
                0 <= a < ws.len() && #[trigger] ws[a] == seq!['a', 'l', 'l'] && (forall|j: int|
                    0 <= j < a ==> #[trigger] week_item(ws[j]) is Ok && ws[j] != seq!['a', 'l', 'l'])
                    ==> week_ranges_of(data) == Ok::<Seq<(int, int)>, IntErrorKind>(
                    seq![(0int, 255int)],
                )
        }),
{
    let ws = split_by(data, seq![',']);
    if forall|j: int| 0 <= j < ws.len() ==> #[trigger] ws[j] != seq!['a', 'l', 'l'] {
        lemma_scan_no_all(ws, 0, seq![]);
    }
    assert forall|a: int|
        0 <= a < ws.len() && #[trigger] ws[a] == seq!['a', 'l', 'l'] && (forall|j: int|
            0 <= j < a ==> #[trigger] week_item(ws[j]) is Ok && ws[j] != seq!['a', 'l', 'l'])
        implies week_ranges_of(data) == Ok::<Seq<(int, int)>, IntErrorKind>(
        seq![(0int, 255int)],
    ) by {
        lemma_scan_reaches_all(ws, 0, seq![], a);
    }
}

/// Law: the item `N` spells the single week `N`, and the item `N-M` the
/// range from `N` to `M`, for week numbers written in decimal.
pub proof fn lemma_week_item_spelled(a: nat, b: nat)
    requires
        a <= last_week(),
        b <= last_week(),
    ensures
        week_item(digits_of(a)) == Ok::<(int, int), IntErrorKind>((a as int, a as int)),
        week_item(digits_of(a) + seq!['-'] + digits_of(b)) == Ok::<(int, int), IntErrorKind>(
            (a as int, b as int),
        ),
{
    let sep = seq!['-'];
    let da = digits_of(a);
    let db = digits_of(b);
    lemma_digits_of(a);
    lemma_digits_of(b);
    lemma_parse_uint_digits(a, 255);
    lemma_parse_uint_digits(b, 255);
    assert forall|k: int| 0 <= k < da.len() implies da[k] != sep[0] by {
        assert(is_digit(da[k]));
    }
    lemma_find_none(da, sep, 0);
    assert(da.subrange(0, da.len() as int) =~= da);
    assert(split_by(da, sep) == seq![da]);
    let t = da + sep + db;
    let j = da.len() as int;
    assert forall|k: int| 0 <= k < j implies !occurs_at(t, sep, k) by {
        assert(t.subrange(k, k + 1)[0] == t[k]);
        assert(t[k] == da[k]);
        assert(is_digit(da[k]));
    }
    assert(t.subrange(j, j + 1) =~= sep);
    lemma_find_first(t, sep, 0, j);
    assert forall|k: int| j + 1 <= k < t.len() implies t[k] != sep[0] by {
        assert(t[k] == db[k - j - 1]);
        assert(is_digit(db[k - j - 1]));
    }
    lemma_find_none(t, sep, j + 1);
    assert(split_from(t, sep, j + 1) == seq![t.subrange(j + 1, t.len() as int)]);
    assert(t.subrange(0, j) =~= da);
    assert(t.subrange(j + 1, t.len() as int) =~= db);
    assert(split_by(t, sep) == seq![da] + seq![db]);
    assert(split_by(t, sep)[0] == da);
    assert(split_by(t, sep)[1] == db);
}

proof fn lemma_scan_no_all(ws: Seq<Seq<char>>, k: int, acc: Seq<(int, int)>)
    requires
        0 <= k <= ws.len(),
        forall|j: int| 0 <= j < ws.len() ==> #[trigger] ws[j] != seq!['a', 'l', 'l'],
    ensures
        scan_week_items(ws, k, acc) matches Ok(v) ==> v.len() == acc.len() + ws.len() - k
            && v.subrange(0, acc.len() as int) == acc && forall|j: int|
            k <= j < ws.len() ==> week_item(#[trigger] ws[j]) == Ok::<(int, int), IntErrorKind>(
                v[acc.len() + j - k],
            ),
    decreases ws.len() - k,
{
    if k < ws.len() {
        assert(ws[k] != seq!['a', 'l', 'l']);
        match week_item(ws[k]) {
            Err(e) => {},
            Ok(r) => {
                lemma_scan_no_all(ws, k + 1, acc.push(r));
                if let Ok(v) = scan_week_items(ws, k, acc) {
                    let n = acc.len() as int;
                    let acc2 = acc.push(r);
                    assert(v.subrange(0, n + 1) == acc2);
                    assert(v[n] == v.subrange(0, n + 1)[n]);
                    assert(v[n] == r);
                    assert forall|i: int| 0 <= i < n implies v.subrange(0, n)[i] == acc[i] by {
                        assert(v.subrange(0, n + 1)[i] == acc2[i]);
                    }
                    assert(v.subrange(0, n) =~= acc);
                }
            },
        }
    } else {
        assert(acc.subrange(0, acc.len() as int) =~= acc);
    }
}

proof fn lemma_scan_reaches_all(ws: Seq<Seq<char>>, k: int, acc: Seq<(int, int)>, a: int)
    requires
        0 <= k <= a < ws.len(),
        ws[a] == seq!['a', 'l', 'l'],
        forall|j: int| 0 <= j < a ==> #[trigger] week_item(ws[j]) is Ok && ws[j] != seq!['a', 'l', 'l'],
    ensures
        scan_week_items(ws, k, acc) == Ok::<Seq<(int, int)>, IntErrorKind>(seq![(0int, 255int)]),
    decreases a - k,
{
    if k < a {
        assert(week_item(ws[k]) is Ok && ws[k] != seq!['a', 'l', 'l']);
        lemma_scan_reaches_all(ws, k + 1, acc.push(week_item(ws[k])->Ok_0), a);
    }
}

/// An inclusive range of week numbers.
#[derive(Clone, Copy, Debug, PartialEq, Eq, Structural)]
pub struct Range {
    pub start: i32,
    pub end: i32,
}

/// A lesson as stored for a group.
#[derive(Debug)]
pub struct Schedule {
    pub day: i32,
    pub num: i32,
    pub week_ranges: Vec<Range>,
    pub name: String,
    pub lesson_type: Option<String>,
    pub teacher: Option<String>,
    pub auditorium: String,
    pub even_odd: EvenOdd,
}

/// A lesson as read from one row of an imported CSV schedule.
#[derive(Debug)]
pub struct PortableScheduleEntry {
    pub day: u8,
    pub num: u8,
    pub week_ranges: Vec<Range>,
    pub name: String,
    pub lesson_type: Option<String>,
    pub teacher: Option<String>,
    pub auditorium: String,
    pub even_odd: EvenOdd,
}

pub open spec fn schedule_from_portable(p: PortableScheduleEntry) -> Schedule {
    Schedule {
        day: p.day as i32,
        num: p.num as i32,
        week_ranges: p.week_ranges,
        name: p.name,
        lesson_type: p.lesson_type,
        teacher: p.teacher,
        auditorium: p.auditorium,
        even_odd: p.even_odd,
    }
}

impl From<PortableScheduleEntry> for Schedule {
    fn from(p: PortableScheduleEntry) -> (s: Schedule) {
        Schedule {
            day: p.day as i32,
            num: p.num as i32,
            week_ranges: p.week_ranges,
            name: p.name,
            lesson_type: p.lesson_type,
            teacher: p.teacher,
            auditorium: p.auditorium,
            even_odd: p.even_odd,
        }
    }
}

impl vstd::std_specs::convert::FromSpecImpl<PortableScheduleEntry> for Schedule {
    open spec fn obeys_from_spec() -> bool {
        true
    }

    open spec fn from_spec(p: PortableScheduleEntry) -> Schedule {
        schedule_from_portable(p)
    }
}

/// Turns every imported row into a stored lesson, keeping their order.
pub fn schedule_from_entries(entries: Vec<PortableScheduleEntry>) -> (s: Vec<Schedule>)
    ensures
        s@ == entries@.map_values(|p: PortableScheduleEntry| schedule_from_portable(p)),
{
    let ghost orig = entries@;
    let mut entries = entries;
    let mut rev: Vec<Schedule> = Vec::new();
    while entries.len() > 0
        invariant
            entries@ == orig.take(entries@.len() as int),
            entries@.len() <= orig.len(),
            rev@.len() + entries@.len() == orig.len(),
            forall|k: int|
                0 <= k < rev@.len() ==> #[trigger] rev@[k] == schedule_from_portable(
                    orig[orig.len() - 1 - k],
                ),
        decreases entries@.len(),
    {
        let p = entries.pop().unwrap();
        let s: Schedule = Schedule::from(p);
        rev.push(s);
        assert(entries@ =~= orig.take(entries@.len() as int));
    }
    let mut out: Vec<Schedule> = Vec::new();
    while rev.len() > 0
        invariant
            rev@.len() <= orig.len(),
            out@.len() + rev@.len() == orig.len(),
            forall|k: int|
                0 <= k < rev@.len() ==> #[trigger] rev@[k] == schedule_from_portable(
                    orig[orig.len() - 1 - k],
                ),
            forall|k: int|
                0 <= k < out@.len() ==> #[trigger] out@[k] == schedule_from_portable(orig[k]),
        decreases rev@.len(),
    {
        let s = rev.pop().unwrap();
        out.push(s);
    }
    assert(out@ =~= orig.map_values(|p: PortableScheduleEntry| schedule_from_portable(p)));
    out
}

/// The highest week number: weeks are numbered `0..=255` (a `u8`).
pub open spec fn last_week() -> int {
    255
}

/// One comma-separated item of a week list: `N` or `N-M`, each a week
/// number from 0 to 255 (anything after a second `-` is ignored).
pub open spec fn week_item(p: Seq<char>) -> Result<(int, int), IntErrorKind> {
    let parts = split_by(p, seq!['-']);
    match parse_u8_spec(parts[0]) {
        Err(e) => Err(e),
        Ok(start) => if parts.len() > 1 {
            match parse_u8_spec(parts[1]) {
                Err(e) => Err(e),
                Ok(end) => Ok((start, end)),
            }
        } else {
            Ok((start, start))
        },
    }
}

/// Reads the items `ws[k..]` after the ranges `acc`: the first item that
/// is `all` gives the single range of every week, `0..=255`; the first item
/// that is not a week number or a range of them gives its error.
pub open spec fn scan_week_items(ws: Seq<Seq<char>>, k: int, acc: Seq<(int, int)>) -> Result<
    Seq<(int, int)>,
    IntErrorKind,
>
    decreases ws.len() - k,
{
    if k < 0 || k >= ws.len() {
        Ok(acc)
    } else if ws[k] == seq!['a', 'l', 'l'] {
        Ok(seq![(0int, last_week())])
    } else {
        match week_item(ws[k]) {
            Err(e) => Err(e),
            Ok(r) => scan_week_items(ws, k + 1, acc.push(r)),
        }
    }
}

/// The week ranges that a week list such as `1-8,10,12-16` or `all` stands for.
pub open spec fn week_ranges_of(data: Seq<char>) -> Result<Seq<(int, int)>, IntErrorKind> {
    scan_week_items(split_by(data, seq![',']), 0, seq![])
}

/// Both ends of `r` are week numbers, `0..=255`.
pub open spec fn week_in_range(r: Range) -> bool {
    0 <= r.start <= last_week() && 0 <= r.end <= last_week()
}

pub open spec fn range_bounds(r: Range) -> (int, int) {
    (r.start as int, r.end as int)
}

pub open spec fn ranges_view(v: Seq<Range>) -> Seq<(int, int)> {
    v.map_values(|r: Range| range_bounds(r))
}

fn parse_week_item(p: &Vec<char>) -> (r: Result<Range, IntErrorKind>)
    ensures
        match r {
            Ok(range) => week_item(p@) == Ok::<(int, int), IntErrorKind>(range_bounds(range))
                && week_in_range(range),
            Err(e) => week_item(p@) == Err::<(int, int), IntErrorKind>(e),
        },
{
    let dash = vec!['-'];
    assert(dash@ =~= seq!['-']);
    let parts = split_chars(p, &dash);
    let ghost ps = split_by(p@, seq!['-']);
    assert(parts@[0]@ == ps[0]);
    let start = match parse_u8(&parts[0]) {
        Ok(v) => v,
        Err(e) => return Err(e),
    };
    let mut end = start;
    if parts.len() > 1 {
        assert(parts@[1]@ == ps[1]);
        end = match parse_u8(&parts[1]) {
            Ok(v) => v,
            Err(e) => return Err(e),
        };
    }
    Ok(Range { start: start as i32, end: end as i32 })
}

/// Reads a week list: comma-separated items that are a week number `N`,
/// a range `N-M`, or `all` for every week; week numbers run from 0 to 255,
/// and a larger one is refused as `PosOverflow`.
pub fn from_week_ranges(data: &str) -> (r: Result<Vec<Range>, IntErrorKind>)
    ensures
        match r {
            Ok(v) => week_ranges_of(data@) == Ok::<Seq<(int, int)>, IntErrorKind>(
                ranges_view(v@),
            ),
            Err(e) => week_ranges_of(data@) == Err::<Seq<(int, int)>, IntErrorKind>(e),
        },
        r matches Ok(v) ==> forall|i: int| 0 <= i < v@.len() ==> week_in_range(#[trigger] v@[i]),
{
    let chars = chars_of(data);
    let comma = vec![','];
    assert(comma@ =~= seq![',']);
    let weeks = split_chars(&chars, &comma);
    let ghost ws = split_by(data@, seq![',']);
    let all_word = vec!['a', 'l', 'l'];
    assert(all_word@ =~= seq!['a', 'l', 'l']);
    let mut ranges: Vec<Range> = Vec::new();
    assert(ranges_view(ranges@) =~= seq![]);
    let mut k: usize = 0;
    while k < weeks.len()
        invariant
            k <= weeks.len(),
            views(weeks@) == ws,
            all_word@ == seq!['a', 'l', 'l'],
            forall|i: int| 0 <= i < ranges@.len() ==> week_in_range(#[trigger] ranges@[i]),
            week_ranges_of(data@) == scan_week_items(ws, k as int, ranges_view(ranges@)),
        decreases weeks.len() - k,
    {
        assert(weeks@[k as int]@ == ws[k as int]);
        if chars_eq(&weeks[k], &all_word) {
            let mut all: Vec<Range> = Vec::new();
            all.push(Range { start: 0, end: 255 });
            assert(ranges_view(all@) =~= seq![(0int, last_week())]);
            return Ok(all);
        }
        match parse_week_item(&weeks[k]) {
            Ok(range) => {
                assert(ranges_view(ranges@.push(range)) =~= ranges_view(ranges@).push(
                    range_bounds(range),
                ));
                ranges.push(range);
            },
            Err(e) => return Err(e),
        }
        k += 1;
    }
    Ok(ranges)
}

/// What the API answers: a value (`"ok"` on the wire), or an error
/// message (`"error"` on the wire).
pub enum ApiResponse<T> {
    Success(T),
    Failure(String),
}

/// One slot of a day in a weekly schedule: a lesson, or an empty slot.
#[derive(Debug)]
pub struct ScheduleEntry {
    pub name: Option<String>,
    pub lesson_type: Option<String>,
    pub teacher: Option<String>,
    pub auditorium: Option<String>,
    pub empty: Option<bool>,
}

/// The service's configuration file.
pub struct Config {
    pub port: u16,
    pub jwt_secret: String,
    pub product: ConfigProduct,
    pub support: Vec<SupportContact>,
}

/// The name and logo of the product that the service is branded as.
pub struct ConfigProduct {
    pub name: String,
    pub logo: String,
}

/// A contact that users can reach for support.
#[derive(Clone)]
pub struct SupportContact {
    pub name: String,
    pub url: String,
}

} // verus!
