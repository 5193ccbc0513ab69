//! The weekly timetable of a group: which lessons take place in a given
//! week, and how each day's lessons are laid out in numbered slots.
use vstd::prelude::*;

use crate::data::{EvenOdd, Range, Schedule, ScheduleEntry};

verus! {

/// The abstract content of one slot of a day.
pub ghost struct SlotView {
    pub name: Option<Seq<char>>,
    pub lesson_type: Option<Seq<char>>,
    pub teacher: Option<Seq<char>>,
    pub auditorium: Option<Seq<char>>,
    pub empty: Option<bool>,
}

pub open spec fn text_view(o: Option<String>) -> Option<Seq<char>> {
    match o {
        Some(s) => Some(s@),
        None => None,
    }
}

impl View for ScheduleEntry {
    type V = SlotView;

    open spec fn view(&self) -> SlotView {
        SlotView {
            name: text_view(self.name),
            lesson_type: text_view(self.lesson_type),
            teacher: text_view(self.teacher),
            auditorium: text_view(self.auditorium),
            empty: self.empty,
        }
    }
}

pub open spec fn slots_view(v: Seq<ScheduleEntry>) -> Seq<SlotView> {
    v.map_values(|e: ScheduleEntry| e@)
}

/// A slot with no lesson in it.
pub open spec fn empty_slot() -> SlotView {
    SlotView { name: None, lesson_type: None, teacher: None, auditorium: None, empty: Some(true) }
}

/// The slot that shows lesson `l`.
pub open spec fn lesson_slot(l: Schedule) -> SlotView {
    SlotView {
        name: Some(l.name@),
        lesson_type: text_view(l.lesson_type),
        teacher: text_view(l.teacher),
        auditorium: Some(l.auditorium@),
        empty: None,
    }
}

/// The week's parity suits the marker: even weeks for `Even`, odd weeks
/// for `Odd`, any week otherwise.
pub open spec fn parity_ok(e: EvenOdd, week: int) -> bool {
    match e {
        EvenOdd::Even => week % 2 == 0,
        EvenOdd::Odd => week % 2 != 0,
        EvenOdd::No => true,
    }
}

/// Some range of `ranges` holds `week`.
pub open spec fn in_some_range(ranges: Seq<Range>, week: int) -> bool {
    exists|k: int| 0 <= k < ranges.len() && #[trigger] ranges[k].start <= week <= ranges[k].end
}

/// Lesson `l` takes place in week `week`.
pub open spec fn takes_place(l: Schedule, week: int) -> bool {
    parity_ok(l.even_odd, week) && in_some_range(l.week_ranges@, week)
}

/// Lesson `l` takes place on day `day` of week `week`.
pub open spec fn on_day(week: int, day: int) -> spec_fn(Schedule) -> bool {
    |l: Schedule| takes_place(l, week) && l.day == day
}

/// How many leading lessons of `s` have a number of at most `n`.
pub open spec fn count_leading_le(s: Seq<Schedule>, n: int) -> nat
    decreases s.len(),
{
    if s.len() == 0 {
        0
    } else if s[0].num <= n {
        1 + count_leading_le(s.drop_first(), n)
    } else {
        0
    }
}

/// `l` placed into the sorted `sorted` after every lesson whose number is
/// not above its own.
pub open spec fn insert_by_num(sorted: Seq<Schedule>, l: Schedule) -> Seq<Schedule> {
    sorted.insert(count_leading_le(sorted, l.num as int) as int, l)
}

/// The lessons of `s` ordered by number; lessons with equal numbers keep
/// their order (a stable sort).
pub open spec fn sort_by_num(s: Seq<Schedule>) -> Seq<Schedule>
    decreases s.len(),
{
    if s.len() == 0 {
        s
    } else {
        insert_by_num(sort_by_num(s.drop_last()), s.last())
    }
}

/// The lessons of day `day` in week `week`, ordered by number.
pub open spec fn day_lessons(s: Seq<Schedule>, week: int, day: int) -> Seq<Schedule> {
    sort_by_num(s.filter(on_day(week, day)))
}

/// `n` empty slots.
pub open spec fn empty_slots(n: int) -> Seq<SlotView> {
    Seq::new(
        if n < 0 {
            0
        } else {
            n as nat
        },
        |i: int| empty_slot(),
    )
}

/// Lays out `lessons[k..]` when the next free slot is number `next`: before
/// each lesson come empty slots up to its number, then the lesson.
pub open spec fn layout_from(lessons: Seq<Schedule>, k: int, next: int) -> Seq<SlotView>
    decreases lessons.len() - k,
{
    if k < 0 || k >= lessons.len() {
        seq![]
    } else {
        let l = lessons[k];
        let gap = if next < l.num {
            l.num - next
        } else {
            0
        };
        empty_slots(gap) + seq![lesson_slot(l)] + layout_from(lessons, k + 1, next + gap + 1)
    }
}

/// The slots of day `day` (1 to 7) in week `week`, numbered from 1.
pub open spec fn day_slots(s: Seq<Schedule>, week: int, day: int) -> Seq<SlotView> {
    layout_from(day_lessons(s, week, day), 0, 1)
}

fn parity_ok_exec(e: EvenOdd, week: i32) -> (r: bool)
    ensures
        r == parity_ok(e, week as int),
{
    let even = week % 2 == 0;
    match e {
        EvenOdd::Even => even,
        EvenOdd::Odd => !even,
        EvenOdd::No => true,
    }
}

fn takes_place_exec(l: &Schedule, week: i32) -> (r: bool)
    ensures
        r == takes_place(*l, week as int),
{
    if !parity_ok_exec(l.even_odd, week) {
        return false;
    }
    let mut k: usize = 0;
    while k < l.week_ranges.len()
        invariant
            k <= l.week_ranges.len(),
            parity_ok(l.even_odd, week as int),
            forall|j: int|
                0 <= j < k ==> !(#[trigger] l.week_ranges@[j].start <= week <= l.week_ranges@[j].end),
        decreases l.week_ranges.len() - k,
    {
        let r = l.week_ranges[k];
        if r.start <= week && week <= r.end {
            assert(l.week_ranges@[k as int].start <= week <= l.week_ranges@[k as int].end);
            return true;
        }
        k += 1;
    }
    false
}

proof fn lemma_count_leading_le(s: Seq<Schedule>, n: int, q: int)
    requires
        0 <= q <= s.len(),
        forall|m: int| 0 <= m < q ==> s[m].num <= n,
        q == s.len() || s[q].num > n,
    ensures
        count_leading_le(s, n) == q,
    decreases q,
{
    if q > 0 {
        lemma_count_leading_le(s.drop_first(), n, q - 1);
    }
}

/// The positions in `schedule` of the lessons of a day, ordered by number.
fn day_lesson_positions(schedule: &Vec<Schedule>, week: i32, day: i32) -> (pos: Vec<usize>)
    ensures
        forall|k: int| 0 <= k < pos@.len() ==> pos@[k] < schedule@.len(),
        pos@.map_values(|p: usize| schedule@[p as int]) == day_lessons(
            schedule@,
            week as int,
            day as int,
        ),
{
    let ghost s = schedule@;
    let ghost pred = on_day(week as int, day as int);
    let mut pos: Vec<usize> = Vec::new();
    let mut j: usize = 0;
    assert(s.take(0).filter(pred) =~= Seq::<Schedule>::empty());
    assert(pos@.map_values(|p: usize| s[p as int]) =~= Seq::<Schedule>::empty());
    while j < schedule.len()
        invariant
            s == schedule@,
            pred == on_day(week as int, day as int),
            j <= schedule.len(),
            forall|k: int| 0 <= k < pos@.len() ==> pos@[k] < j,
            pos@.map_values(|p: usize| s[p as int]) == sort_by_num(s.take(j as int).filter(pred)),
        decreases schedule.len() - j,
    {
        let l = &schedule[j];
        assert(s.take(j + 1) =~= s.take(j as int).push(s[j as int]));
        proof {
            s.take(j as int).lemma_filter_push(s[j as int], pred);
        }
        if takes_place_exec(l, week) && l.day == day {
            let ghost before = pos@.map_values(|p: usize| s[p as int]);
            let mut q: usize = 0;
            while q < pos.len() && schedule[pos[q]].num <= l.num
                invariant
                    s == schedule@,
                    q <= pos.len(),
                    forall|k: int| 0 <= k < pos@.len() ==> pos@[k] < j,
                    j < schedule.len(),
                    *l == s[j as int],
                    before == pos@.map_values(|p: usize| s[p as int]),
                    forall|m: int| 0 <= m < q ==> before[m].num <= s[j as int].num,
                decreases pos.len() - q,
            {
                assert(before[q as int] == s[pos@[q as int] as int]);
                q += 1;
            }
            proof {
                if q < pos.len() {
                    assert(before[q as int] == s[pos@[q as int] as int]);
                }
                lemma_count_leading_le(before, s[j as int].num as int, q as int);
                assert(pred(s[j as int]));
                assert(s.take(j as int).filter(pred).push(s[j as int]).drop_last()
                    =~= s.take(j as int).filter(pred));
            }
            pos.insert(q, j);
            proof {
                assert(pos@.map_values(|p: usize| s[p as int]) =~= before.insert(
                    q as int,
                    s[j as int],
                ));
            }
        } else {
            assert(!pred(s[j as int]));
        }
        j += 1;
    }
    assert(s.take(j as int) =~= s);
    pos
}

fn text_copy(o: &Option<String>) -> (r: Option<String>)
    ensures
        text_view(r) == text_view(*o),
{
    match o {
        Some(s) => Some(s.clone()),
        None => None,
    }
}

fn lesson_entry(l: &Schedule) -> (e: ScheduleEntry)
    ensures
        e@ == lesson_slot(*l),
{
    ScheduleEntry {
        name: Some(l.name.clone()),
        lesson_type: text_copy(&l.lesson_type),
        teacher: text_copy(&l.teacher),
        auditorium: Some(l.auditorium.clone()),
        empty: None,
    }
}

fn empty_entry() -> (e: ScheduleEntry)
    ensures
        e@ == empty_slot(),
{
    ScheduleEntry { name: None, lesson_type: None, teacher: None, auditorium: None, empty: Some(true) }
}

/// The slots of one day of the week.
fn day_entries(schedule: &Vec<Schedule>, week: i32, day: i32) -> (out: Vec<ScheduleEntry>)
    ensures
        slots_view(out@) == day_slots(schedule@, week as int, day as int),
{
    let pos = day_lesson_positions(schedule, week, day);
    let ghost lessons = pos@.map_values(|p: usize| schedule@[p as int]);
    let mut out: Vec<ScheduleEntry> = Vec::new();
    let mut next: i128 = 1;
    let mut k: usize = 0;
    assert(slots_view(out@) =~= seq![]);
    while k < pos.len()
        invariant
            k <= pos.len(),
            lessons == pos@.map_values(|p: usize| schedule@[p as int]),
            forall|m: int| 0 <= m < pos@.len() ==> pos@[m] < schedule@.len(),
            1 <= next <= 0x8000_0000 + k,
            layout_from(lessons, 0, 1) == slots_view(out@) + layout_from(
                lessons,
                k as int,
                next as int,
            ),
        decreases pos.len() - k,
    {
        let l = &schedule[pos[k]];
        assert(lessons[k as int] == *l);
        let gap: i128 = if next < l.num as i128 {
            l.num as i128 - next
        } else {
            0
        };
        let ghost start = slots_view(out@);
        let mut g: i128 = 0;
        assert(start =~= start + empty_slots(0));
        while g < gap
            invariant
                0 <= g <= gap,
                slots_view(out@) == start + empty_slots(g as int),
            decreases gap - g,
        {
            let e = empty_entry();
            proof {
                assert(slots_view(out@.push(e)) =~= slots_view(out@).push(e@));
                assert(empty_slots(g + 1) =~= empty_slots(g as int).push(empty_slot()));
            }
            out.push(e);
            g += 1;
        }
        next = next + gap;
        let e = lesson_entry(l);
        proof {
            assert(slots_view(out@.push(e)) =~= slots_view(out@).push(e@));
        }
        out.push(e);
        next += 1;
        k += 1;
        proof {
            assert(slots_view(out@) =~= start + empty_slots(gap as int) + seq![lesson_slot(*l)]);
        }
    }
    out
}

/// The lessons of week `week` laid out day by day: seven days, Monday
/// (day 1) to Sunday (day 7), each a list of numbered slots.
pub fn week_days(schedule: &Vec<Schedule>, week: i32) -> (days: Vec<Vec<ScheduleEntry>>)
    ensures
        days@.len() == 7,
        forall|d: int|
            0 <= d < 7 ==> slots_view(#[trigger] days@[d]@) == day_slots(
                schedule@,
                week as int,
                d + 1,
            ),
{
    let mut days: Vec<Vec<ScheduleEntry>> = Vec::new();
    let mut day: i32 = 1;
    while day < 8
        invariant
            1 <= day <= 8,
            days@.len() == day - 1,
            forall|d: int|
                0 <= d < day - 1 ==> slots_view(#[trigger] days@[d]@) == day_slots(
                    schedule@,
                    week as int,
                    d + 1,
                ),
        decreases 8 - day,
    {
        let entries = day_entries(schedule, week, day);
        days.push(entries);
        day += 1;
    }
    days
}

/// The timetable that the API shows for a group in week `week`: the seven
/// days of `week_days`, or a single empty day when the group has no
/// schedule yet.
pub fn schedule_for_week(schedule: &Option<Vec<Schedule>>, week: i32) -> (days: Vec<
    Vec<ScheduleEntry>,
>)
    ensures
        match schedule {
            None => days@.len() == 1 && days@[0]@.len() == 0,
            Some(s) => days@.len() == 7 && forall|d: int|
                0 <= d < 7 ==> slots_view(#[trigger] days@[d]@) == day_slots(
                    s@,
                    week as int,
                    d + 1,
                ),
        },
{
    match schedule {
        Some(s) => week_days(s, week),
        None => {
            let mut days: Vec<Vec<ScheduleEntry>> = Vec::new();
            days.push(Vec::new());
            days
        },
    }
}

proof fn lemma_count_leading_le_props(t: Seq<Schedule>, n: int)
    ensures
        count_leading_le(t, n) <= t.len(),
        forall|m: int| 0 <= m < count_leading_le(t, n) ==> #[trigger] t[m].num <= n,
        count_leading_le(t, n) < t.len() ==> t[count_leading_le(t, n) as int].num > n,
    decreases t.len(),
{
    if t.len() > 0 && t[0].num <= n {
        lemma_count_leading_le_props(t.drop_first(), n);
        assert forall|m: int| 0 <= m < count_leading_le(t, n) implies #[trigger] t[m].num <= n by {
            if m > 0 {
                assert(t[m] == t.drop_first()[m - 1]);
            }
        }
    }
}

/// The lessons of `t` are in nondecreasing order of number.
pub open spec fn sorted_by_num(t: Seq<Schedule>) -> bool {
    forall|i: int, j: int| 0 <= i <= j < t.len() ==> #[trigger] t[i].num <= #[trigger] t[j].num
}

/// Law: ordering by number yields the same lessons, in nondecreasing order
/// of number.
pub proof fn lemma_sort_by_num(s: Seq<Schedule>)
    ensures
        sorted_by_num(sort_by_num(s)),
        sort_by_num(s).to_multiset() == s.to_multiset(),
        sort_by_num(s).len() == s.len(),
    decreases s.len(),
{
    broadcast use vstd::seq_lib::to_multiset_build, vstd::seq_lib::to_multiset_insert;

    if s.len() > 0 {
        let t = sort_by_num(s.drop_last());
        let x = s.last();
        lemma_sort_by_num(s.drop_last());
        lemma_count_leading_le_props(t, x.num as int);
        let c = count_leading_le(t, x.num as int) as int;
        let r = t.insert(c, x);
        t.insert_ensures(c, x);
        assert(sorted_by_num(r)) by {
            assert forall|i: int, j: int| 0 <= i <= j < r.len() implies #[trigger] r[i].num
                <= #[trigger] r[j].num by {
                if i < c && j < c {
                    assert(r[i] == t[i] && r[j] == t[j]);
                } else if i < c && j == c {
                    assert(r[i] == t[i]);
                } else if i < c && j > c {
                    assert(r[i] == t[i] && r[j] == t[j - 1]);
                } else if i == c && j == c {
                } else if i == c && j > c {
                    assert(r[j] == t[j - 1]);
                    assert(t[c].num <= t[j - 1].num);
                } else {
                    assert(r[i] == t[i - 1] && r[j] == t[j - 1]);
                }
            }
        }
        assert(s =~= s.drop_last().push(x));
    }
}

/// Lessons numbered `n`.
pub open spec fn numbered(n: int) -> spec_fn(Schedule) -> bool {
    |l: Schedule| l.num == n
}

/// Law: ordering by number is stable: for every number, the lessons with
/// that number come out in the order they came in.
pub proof fn lemma_sort_by_num_stable(s: Seq<Schedule>, n: int)
    ensures
        sort_by_num(s).filter(numbered(n)) == s.filter(numbered(n)),
    decreases s.len(),
{
    if s.len() > 0 {
        let p = numbered(n);
        let t = sort_by_num(s.drop_last());
        let x = s.last();
        lemma_sort_by_num_stable(s.drop_last(), n);
        lemma_sort_by_num(s.drop_last());
        lemma_count_leading_le_props(t, x.num as int);
        let c = count_leading_le(t, x.num as int) as int;
        let pre = t.subrange(0, c);
        let post = t.subrange(c, t.len() as int);
        assert(t =~= pre + post);
        assert(t.insert(c, x) =~= pre.push(x) + post);
        Seq::filter_distributes_over_add(pre, post, p);
        Seq::filter_distributes_over_add(pre.push(x), post, p);
        pre.lemma_filter_push(x, p);
        s.drop_last().lemma_filter_push(x, p);
        assert(s =~= s.drop_last().push(x));
        if x.num == n {
            assert forall|i: int| 0 <= i < post.len() implies !p(post[i]) by {
                assert(post[i] == t[c + i]);
                if i > 0 {
                    assert(t[c].num <= t[c + i].num);
                }
            }
            post.lemma_all_neg_filter_empty(p);
            assert(post.filter(p) =~= Seq::<Schedule>::empty());
            assert(t.filter(p) =~= pre.filter(p));
            assert(t.insert(c, x).filter(p) =~= pre.filter(p).push(x));
        } else {
            assert(t.insert(c, x).filter(p) =~= pre.filter(p) + post.filter(p));
        }
    }
}

/// Law: the lessons shown on day `day` of week `week` are exactly the
/// lessons of `s` that take place on that day, ordered by number.
pub proof fn lemma_day_lessons(s: Seq<Schedule>, week: int, day: int)
    ensures
        sorted_by_num(day_lessons(s, week, day)),
        day_lessons(s, week, day).to_multiset() == s.filter(on_day(week, day)).to_multiset(),
        forall|l: Schedule|
            #[trigger] day_lessons(s, week, day).contains(l) <==> (s.contains(l) && takes_place(
                l,
                week,
            ) && l.day == day),
{
    broadcast use vstd::seq_lib::to_multiset_contains;

    let f = s.filter(on_day(week, day));
    lemma_sort_by_num(f);
    assert forall|l: Schedule| #[trigger]
        day_lessons(s, week, day).contains(l) <==> (s.contains(l) && takes_place(l, week) && l.day
            == day) by {
        assert(day_lessons(s, week, day).to_multiset().count(l) == f.to_multiset().count(l));
        if f.contains(l) {
            let i = choose|i: int| 0 <= i < f.len() && f[i] == l;
            s.lemma_filter_contains_rev(on_day(week, day), l);
            assert(on_day(week, day)(f[i])) by {
                broadcast use vstd::seq_lib::group_filter_ensures;
            }
            assert(s.contains(l)) by {
                broadcast use vstd::seq_lib::group_filter_ensures;
            }
        }
        if s.contains(l) && takes_place(l, week) && l.day == day {
            s.lemma_filter_contains_rev(on_day(week, day), l);
        }
    }
}

/// Law: a lesson of the group is shown on day `day` of week `week` exactly
/// when it is a lesson of that day, the week's parity suits its marker
/// (even weeks for `Even`, odd weeks for `Odd`), and the week lies in at
/// least one of its week ranges, whichever position that range has.
pub proof fn lemma_lesson_shown_iff(s: Seq<Schedule>, week: int, day: int, l: Schedule)
    ensures
        day_lessons(s, week, day).contains(l) <==> (s.contains(l) && l.day == day && (l.even_odd
            == EvenOdd::Even ==> week % 2 == 0) && (l.even_odd == EvenOdd::Odd ==> week % 2 != 0)
            && exists|k: int|
            0 <= k < l.week_ranges@.len() && #[trigger] l.week_ranges@[k].start <= week
                <= l.week_ranges@[k].end),
{
    lemma_day_lessons(s, week, day);
    assert(day_lessons(s, week, day).contains(l) <==> (s.contains(l) && takes_place(l, week)
        && l.day == day));
}

/// A slot that shows a lesson rather than an empty slot.
pub open spec fn is_lesson_slot(v: SlotView) -> bool {
    v.empty != Some(true)
}

#[verifier::spinoff_prover]
#[verifier::rlimit(40)]
proof fn lemma_layout_lessons(ls: Seq<Schedule>, k: int, next: int)
    requires
        0 <= k <= ls.len(),
    ensures
        layout_from(ls, k, next).filter(|v: SlotView| is_lesson_slot(v)) == ls.subrange(
            k,
            ls.len() as int,
        ).map_values(|l: Schedule| lesson_slot(l)),
    decreases ls.len() - k,
{
    let p = |v: SlotView| is_lesson_slot(v);
    if k == ls.len() {
        assert(layout_from(ls, k, next) =~= Seq::<SlotView>::empty());
        assert(Seq::<SlotView>::empty().filter(p) =~= Seq::<SlotView>::empty());
        assert(ls.subrange(k, ls.len() as int).map_values(|l: Schedule| lesson_slot(l))
            =~= Seq::<SlotView>::empty());
    } else {
        let l = ls[k];
        let gap = if next < l.num {
            l.num - next
        } else {
            0
        };
        let e = empty_slots(gap);
        let rest = layout_from(ls, k + 1, next + gap + 1);
        lemma_layout_lessons(ls, k + 1, next + gap + 1);
        Seq::filter_distributes_over_add(e + seq![lesson_slot(l)], rest, p);
        Seq::filter_distributes_over_add(e, seq![lesson_slot(l)], p);
        e.lemma_all_neg_filter_empty(p);
        assert(seq![lesson_slot(l)].filter(p) =~= seq![lesson_slot(l)]) by {
            reveal_with_fuel(Seq::filter, 2);
            assert(seq![lesson_slot(l)].drop_last() =~= Seq::<SlotView>::empty());
        }
        assert(e.filter(p) =~= Seq::<SlotView>::empty());
        assert(layout_from(ls, k, next) == e + seq![lesson_slot(l)] + rest);
        let tail = ls.subrange(k + 1, ls.len() as int).map_values(|l: Schedule| lesson_slot(l));
        assert(rest.filter(p) == tail);
        assert(ls.subrange(k, ls.len() as int).map_values(|l: Schedule| lesson_slot(l))
            =~= seq![lesson_slot(l)] + tail);
    }
}

/// Law: every lesson of the day is shown exactly once, in the order of
/// `day_lessons`; every other slot of the day is an empty slot.
pub proof fn lemma_day_slots_show_each_lesson(s: Seq<Schedule>, week: int, day: int)
    ensures
        day_slots(s, week, day).filter(|v: SlotView| is_lesson_slot(v)) == day_lessons(
            s,
            week,
            day,
        ).map_values(|l: Schedule| lesson_slot(l)),
        forall|i: int|
            0 <= i < day_slots(s, week, day).len() && !is_lesson_slot(
                #[trigger] day_slots(s, week, day)[i],
            ) ==> day_slots(s, week, day)[i] == empty_slot(),
{
    let ls = day_lessons(s, week, day);
    lemma_layout_lessons(ls, 0, 1);
    assert(ls.subrange(0, ls.len() as int) =~= ls);
    lemma_layout_only_slots(ls, 0, 1);
}

proof fn lemma_layout_only_slots(ls: Seq<Schedule>, k: int, next: int)
    requires
        0 <= k <= ls.len(),
    ensures
        forall|i: int|
            0 <= i < layout_from(ls, k, next).len() && !is_lesson_slot(
                #[trigger] layout_from(ls, k, next)[i],
            ) ==> layout_from(ls, k, next)[i] == empty_slot(),
    decreases ls.len() - k,
{
    if k < ls.len() {
        let l = ls[k];
        let gap = if next < l.num {
            l.num - next
        } else {
            0
        };
        lemma_layout_only_slots(ls, k + 1, next + gap + 1);
        let e = empty_slots(gap);
        let rest = layout_from(ls, k + 1, next + gap + 1);
        let all = layout_from(ls, k, next);
        assert(all == e + seq![lesson_slot(l)] + rest);
        assert forall|i: int|
            0 <= i < all.len() && !is_lesson_slot(#[trigger] all[i]) implies all[i]
            == empty_slot() by {
            if i < e.len() {
            } else if i == e.len() {
            } else {
                assert(all[i] == rest[i - e.len() - 1]);
            }
        }
    }
}

/// Some lesson of `ls[k..]` has the number `n`.
pub open spec fn number_taken(ls: Seq<Schedule>, k: int, n: int) -> bool {
    exists|m: int| k <= m < ls.len() && #[trigger] ls[m].num == n
}

proof fn lemma_layout_positions(ls: Seq<Schedule>, k: int, next: int)
    requires
        0 <= k <= ls.len(),
        forall|i: int, j: int| 0 <= i < j < ls.len() ==> #[trigger] ls[i].num < #[trigger] ls[j].num,
        k < ls.len() ==> next <= ls[k].num,
    ensures
        forall|m: int|
            k <= m < ls.len() ==> #[trigger] layout_from(ls, k, next)[ls[m].num - next]
                == lesson_slot(ls[m]),
        layout_from(ls, k, next).len() == if k < ls.len() {
            ls.last().num - next + 1
        } else {
            0
        },
        forall|i: int|
            0 <= i < layout_from(ls, k, next).len() && !number_taken(ls, k, i + next) ==> #[trigger]
                layout_from(ls, k, next)[i] == empty_slot(),
    decreases ls.len() - k,
{
    if k < ls.len() {
        let l = ls[k];
        let gap = l.num - next;
        let e = empty_slots(gap);
        let rest = layout_from(ls, k + 1, l.num + 1);
        if k + 1 < ls.len() {
            assert(ls[k].num < ls[k + 1].num);
        }
        lemma_layout_positions(ls, k + 1, l.num + 1);
        let all = layout_from(ls, k, next);
        assert(all == e + seq![lesson_slot(l)] + rest);
        assert forall|m: int| k <= m < ls.len() implies #[trigger] all[ls[m].num - next]
            == lesson_slot(ls[m]) by {
            if m > k {
                assert(ls[k].num < ls[m].num);
                assert(all[ls[m].num - next] == rest[ls[m].num - (l.num + 1)]);
            }
        }
        assert forall|i: int|
            0 <= i < all.len() && !number_taken(ls, k, i + next) implies #[trigger] all[i]
            == empty_slot() by {
            if i < gap {
                assert(all[i] == e[i]);
            } else if i == gap {
                assert(ls[k].num == i + next);
            } else {
                assert(all[i] == rest[i - gap - 1]);
                assert(!number_taken(ls, k + 1, (i - gap - 1) + (l.num + 1))) by {
                    if number_taken(ls, k + 1, (i - gap - 1) + (l.num + 1)) {
                        let m = choose|m: int| k + 1 <= m < ls.len() && #[trigger] ls[m].num == (i
                            - gap - 1) + (l.num + 1);
                        assert(ls[m].num == i + next);
                    }
                }
            }
        }
    }
}

/// Law: when the lessons of a day have distinct numbers, all at least 1,
/// the lesson numbered `n` is shown in slot `n` (at index `n - 1`), every
/// slot whose number no lesson has is an empty slot, and the day has as
/// many slots as its highest lesson number.
pub proof fn lemma_lesson_in_its_slot(s: Seq<Schedule>, week: int, day: int)
    requires
        forall|i: int, j: int|
            0 <= i < j < day_lessons(s, week, day).len() ==> #[trigger] day_lessons(
                s,
                week,
                day,
            )[i].num != #[trigger] day_lessons(s, week, day)[j].num,
        forall|i: int|
            0 <= i < day_lessons(s, week, day).len() ==> #[trigger] day_lessons(
                s,
                week,
                day,
            )[i].num >= 1,
    ensures
        forall|k: int|
            0 <= k < day_lessons(s, week, day).len() ==> #[trigger] day_slots(s, week, day)[
            day_lessons(s, week, day)[k].num - 1] == lesson_slot(day_lessons(s, week, day)[k]),
        forall|i: int|
            0 <= i < day_slots(s, week, day).len() && !number_taken(
                day_lessons(s, week, day),
                0,
                i + 1,
            ) ==> #[trigger] day_slots(s, week, day)[i] == empty_slot(),
        day_slots(s, week, day).len() == if day_lessons(s, week, day).len() == 0 {
            0
        } else {
            day_lessons(s, week, day).last().num as int
        },
{
    let ls = day_lessons(s, week, day);
    lemma_day_lessons(s, week, day);
    assert forall|i: int, j: int| 0 <= i < j < ls.len() implies #[trigger] ls[i].num
        < #[trigger] ls[j].num by {
        assert(ls[i].num <= ls[j].num);
    }
    lemma_layout_positions(ls, 0, 1);
}

} // verus!
