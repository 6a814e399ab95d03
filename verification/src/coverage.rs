//! Deriving the coverage report: filtering supervision events, the stable
//! two-key sort, grouping into per-weekday break buckets, and the missing
//! locations of each bucket.

use vstd::prelude::*;

use crate::errors::DecodeError;
use crate::errors::GroupingError;
use crate::event::place_of_title;
use crate::event::BreakPlace;
use crate::event::Event;
use crate::event::EventView;
use crate::text::chars_of;
use crate::text::contains_seq;
use crate::text::contains_sub;
use crate::text::vec_eq;

verus! {

/// The index of a weekday name in the fixed Monday-first order, `-1` for any
/// other text.
pub open spec fn weekday_index_of(w: Seq<char>) -> int {
    if w == "Maanantai"@ {
        0
    } else if w == "Tiistai"@ {
        1
    } else if w == "Keskiviikko"@ {
        2
    } else if w == "Torstai"@ {
        3
    } else if w == "Perjantai"@ {
        4
    } else {
        -1
    }
}

/// The index of a weekday name in the fixed Monday-first order.
pub fn weekday_index(day: &str) -> (r: Option<usize>)
    ensures
        (match r {
            Some(i) => weekday_index_of(day@) == i as int,
            None => weekday_index_of(day@) == -1,
        }),
{
    let d = chars_of(day);
    if vec_eq(&d, &chars_of("Maanantai")) {
        Some(0)
    } else if vec_eq(&d, &chars_of("Tiistai")) {
        Some(1)
    } else if vec_eq(&d, &chars_of("Keskiviikko")) {
        Some(2)
    } else if vec_eq(&d, &chars_of("Torstai")) {
        Some(3)
    } else if vec_eq(&d, &chars_of("Perjantai")) {
        Some(4)
    } else {
        None
    }
}

/// The index of a start time among the six fixed break starts, `-1` for any
/// other time.
pub open spec fn break_index_of(start: u32) -> int {
    if start == 525 {
        0
    } else if start == 585 {
        1
    } else if start == 645 {
        2
    } else if start == 660 {
        3
    } else if start == 705 {
        4
    } else if start == 720 {
        5
    } else {
        -1
    }
}

/// The index of a start time among the six fixed break starts.
pub fn break_index(start: u32) -> (r: Option<usize>)
    ensures
        (match r {
            Some(i) => break_index_of(start) == i as int,
            None => break_index_of(start) == -1,
        }),
{
    if start == 525 {
        Some(0)
    } else if start == 585 {
        Some(1)
    } else if start == 645 {
        Some(2)
    } else if start == 660 {
        Some(3)
    } else if start == 705 {
        Some(4)
    } else if start == 720 {
        Some(5)
    } else {
        None
    }
}

/// On the six fixed break starts, the break index orders as the start time.
pub proof fn lemma_break_index_monotone(s1: u32, s2: u32)
    requires
        break_index_of(s1) >= 0,
        break_index_of(s2) >= 0,
        s1 < s2,
    ensures
        break_index_of(s1) < break_index_of(s2),
{
}

/// The supervision events: those whose title contains the marker `Valvonta`,
/// in order.
pub open spec fn supervision_only(evs: Seq<EventView>) -> Seq<EventView>
    decreases evs.len(),
{
    if evs.len() == 0 {
        Seq::empty()
    } else if contains_seq(evs[0].text, "Valvonta"@) {
        seq![evs[0]] + supervision_only(evs.drop_first())
    } else {
        supervision_only(evs.drop_first())
    }
}

/// Keeps the supervision events: exactly those whose title contains
/// `Valvonta`, in their input order.
pub fn filter_supervision(events: &Vec<Event>) -> (r: Vec<Event>)
    ensures
        r.deep_view() == supervision_only(events.deep_view()),
{
    let ghost dv = events.deep_view();
    let pat = chars_of("Valvonta");
    let n = events.len();
    let mut out: Vec<Event> = Vec::new();
    let mut i: usize = 0;
    proof {
        assert(dv.skip(0) =~= dv);
        assert(out.deep_view() =~= Seq::<EventView>::empty());
    }
    while i < n
        invariant
            n == events@.len(),
            n == dv.len(),
            dv == events.deep_view(),
            pat@ == "Valvonta"@,
            i <= n,
            forall|k: int| 0 <= k < n ==> dv[k] == #[trigger] events@[k]@,
            supervision_only(dv) =~= out.deep_view() + supervision_only(dv.skip(i as int)),
        decreases n - i,
    {
        let ghost tail = dv.skip(i as int);
        proof {
            assert(tail[0] == dv[i as int]);
            assert(tail.drop_first() =~= dv.skip(i + 1));
        }
        let title = chars_of(events[i].text().as_str());
        if contains_sub(&title, &pat) {
            let ghost old_out = out.deep_view();
            let ev = events[i].clone();
            out.push(ev);
            proof {
                assert(out.deep_view() =~~= old_out.push(dv[i as int]));
                assert(old_out + (seq![tail[0]] + supervision_only(dv.skip(i + 1)))
                    =~= out.deep_view() + supervision_only(dv.skip(i + 1)));
            }
        }
        i = i + 1;
    }
    proof {
        assert(dv.skip(n as int) =~= Seq::<EventView>::empty());
        assert(out.deep_view() + supervision_only(Seq::<EventView>::empty())
            =~= out.deep_view());
    }
    out
}

/// The two-key order of the report: by weekday index first (unknown weekdays
/// before Monday), then by start time.
pub open spec fn key_le(a: EventView, b: EventView) -> bool {
    weekday_index_of(a.weekday) < weekday_index_of(b.weekday) || (weekday_index_of(a.weekday)
        == weekday_index_of(b.weekday) && a.start <= b.start)
}

/// Sorted under the two-key order.
pub open spec fn sorted_by_key(s: Seq<EventView>) -> bool {
    forall|i: int, j: int| 0 <= i < j < s.len() ==> key_le(#[trigger] s[i], #[trigger] s[j])
}

/// An event has exactly this weekday index and start.
pub open spec fn same_key(a: EventView, w: int, st: u32) -> bool {
    weekday_index_of(a.weekday) == w && a.start == st
}

/// The events with exactly this weekday index and start, in order.
pub open spec fn events_with_key(s: Seq<EventView>, w: int, st: u32) -> Seq<EventView>
    decreases s.len(),
{
    if s.len() == 0 {
        Seq::empty()
    } else if same_key(s[0], w, st) {
        seq![s[0]] + events_with_key(s.drop_first(), w, st)
    } else {
        events_with_key(s.drop_first(), w, st)
    }
}

/// Taking the events of one key distributes over concatenation.
pub proof fn lemma_ewk_concat(a: Seq<EventView>, b: Seq<EventView>, w: int, st: u32)
    ensures
        events_with_key(a + b, w, st) == events_with_key(a, w, st) + events_with_key(b, w, st),
    decreases a.len(),
{
    if a.len() == 0 {
        assert(a + b =~= b);
        assert(events_with_key(a, w, st) + events_with_key(b, w, st) =~= events_with_key(
            b,
            w,
            st,
        ));
    } else {
        lemma_ewk_concat(a.drop_first(), b, w, st);
        assert((a + b).drop_first() =~= a.drop_first() + b);
        assert((a + b)[0] == a[0]);
        if same_key(a[0], w, st) {
            assert(events_with_key(a + b, w, st) =~= seq![a[0]] + (events_with_key(
                a.drop_first(),
                w,
                st,
            ) + events_with_key(b, w, st)));
            assert(seq![a[0]] + (events_with_key(a.drop_first(), w, st) + events_with_key(
                b,
                w,
                st,
            )) =~= (seq![a[0]] + events_with_key(a.drop_first(), w, st)) + events_with_key(
                b,
                w,
                st,
            ));
        }
    }
}

/// A sequence of one key's events is empty exactly when no element has the
/// key.
pub proof fn lemma_ewk_all_other(s: Seq<EventView>, w: int, st: u32)
    requires
        forall|i: int| 0 <= i < s.len() ==> !same_key(#[trigger] s[i], w, st),
    ensures
        events_with_key(s, w, st) == Seq::<EventView>::empty(),
    decreases s.len(),
{
    if s.len() > 0 {
        assert(forall|i: int|
            0 <= i < s.drop_first().len() ==> s.drop_first()[i] == #[trigger] s[i + 1]);
        lemma_ewk_all_other(s.drop_first(), w, st);
    }
}

/// Compares two events under the report's two-key order.
pub fn key_le_exec(a: &Event, b: &Event) -> (r: bool)
    ensures
        r == key_le(a@, b@),
{
    let wa = match weekday_index(a.weekday().as_str()) {
        Some(i) => i as i64,
        None => -1,
    };
    let wb = match weekday_index(b.weekday().as_str()) {
        Some(i) => i as i64,
        None => -1,
    };
    wa < wb || (wa == wb && *a.start() <= *b.start())
}

/// Sorts events by weekday index, then start time, stably: the output is
/// sorted under the two-key order, and for every key, the output's events of
/// that key are the input's events of that key in their input order.
pub fn sort_events(events: &Vec<Event>) -> (r: Vec<Event>)
    ensures
        sorted_by_key(r.deep_view()),
        r.deep_view().len() == events.deep_view().len(),
        forall|w: int, st: u32|
            #[trigger] events_with_key(r.deep_view(), w, st) == events_with_key(
                events.deep_view(),
                w,
                st,
            ),
{
    let ghost dv = events.deep_view();
    let n = events.len();
    let mut out: Vec<Event> = Vec::new();
    let mut i: usize = 0;
    proof {
        assert(dv.take(0) =~= Seq::<EventView>::empty());
        assert forall|w: int, st: u32|
            #[trigger] events_with_key(out.deep_view(), w, st) == events_with_key(
                dv.take(0),
                w,
                st,
            ) by {
            assert(out.deep_view() =~= Seq::<EventView>::empty());
        }
    }
    while i < n
        invariant
            n == events@.len(),
            n == dv.len(),
            dv == events.deep_view(),
            i <= n,
            forall|k: int| 0 <= k < n ==> dv[k] == #[trigger] events@[k]@,
            out.deep_view().len() == i,
            sorted_by_key(out.deep_view()),
            forall|w: int, st: u32|
                #[trigger] events_with_key(out.deep_view(), w, st) == events_with_key(
                    dv.take(i as int),
                    w,
                    st,
                ),
        decreases n - i,
    {
        let ev = events[i].clone();
        let ghost x = dv[i as int];
        let ghost before = out.deep_view();
        let mut p: usize = out.len();
        while p > 0 && !key_le_exec(&out[p - 1], &ev)
            invariant
                p <= out.deep_view().len(),
                ev@ == x,
                out.deep_view() == before,
                sorted_by_key(before),
                forall|q: int| p <= q < before.len() ==> !key_le(#[trigger] before[q], x),
            decreases p,
        {
            proof {
                assert(forall|q: int|
                    0 <= q < p - 1 ==> key_le(#[trigger] before[q], before[p - 1]));
            }
            p = p - 1;
        }
        proof {
            assert forall|q: int| 0 <= q < p implies key_le(#[trigger] before[q], x) by {
                assert(key_le(before[p - 1], x));
                if q < p - 1 {
                    assert(key_le(before[q], before[p - 1]));
                }
            }
        }
        out.insert(p, ev);
        proof {
            let after = out.deep_view();
            assert(after =~~= before.take(p as int) + (seq![x] + before.skip(p as int)));
            assert(sorted_by_key(after)) by {
                assert(forall|q: int| 0 <= q < p ==> after[q] == #[trigger] before[q]);
                assert(after[p as int] == x);
                assert(forall|q: int|
                    p < q < after.len() ==> after[q] == #[trigger] before[q - 1]);
                assert(forall|q: int| p <= q < before.len() ==> !key_le(#[trigger] before[q], x));
                assert(forall|a: EventView, b: EventView| !key_le(a, b) ==> key_le(b, a));
            }
            assert forall|w: int, st: u32|
                #[trigger] events_with_key(after, w, st) == events_with_key(
                    dv.take(i + 1),
                    w,
                    st,
                ) by {
                lemma_ewk_concat(before.take(p as int), seq![x] + before.skip(p as int), w, st);
                lemma_ewk_concat(seq![x], before.skip(p as int), w, st);
                lemma_ewk_concat(before.take(p as int), before.skip(p as int), w, st);
                assert(before.take(p as int) + before.skip(p as int) =~= before);
                assert(dv.take(i + 1) =~= dv.take(i as int) + seq![x]);
                lemma_ewk_concat(dv.take(i as int), seq![x], w, st);
                if same_key(x, w, st) {
                    // nothing at or after p shares x's key: everything there
                    // is strictly greater under the two-key order
                    assert forall|q: int|
                        0 <= q < before.skip(p as int).len() implies !same_key(
                        #[trigger] before.skip(p as int)[q],
                        w,
                        st,
                    ) by {
                        assert(before.skip(p as int)[q] == before[p + q]);
                        assert(!key_le(before[p + q], x));
                    }
                    lemma_ewk_all_other(before.skip(p as int), w, st);
                } else {
                    assert(seq![x].drop_first() =~= Seq::<EventView>::empty());
                    assert(events_with_key(Seq::<EventView>::empty(), w, st)
                        =~= Seq::<EventView>::empty());
                    assert(seq![x][0] == x);
                    assert(events_with_key(seq![x], w, st) == events_with_key(
                        seq![x].drop_first(),
                        w,
                        st,
                    ));
                }
            }
        }
        i = i + 1;
    }
    proof {
        assert(dv.take(n as int) =~= dv);
    }
    out
}

/// Every event's weekday is one of the five fixed names.
pub open spec fn all_weekdays_known(s: Seq<EventView>) -> bool {
    forall|i: int| 0 <= i < s.len() ==> weekday_index_of(#[trigger] s[i].weekday) >= 0
}

/// Every event's start is one of the six fixed break starts.
pub open spec fn all_breaks_known(s: Seq<EventView>) -> bool {
    forall|i: int| 0 <= i < s.len() ==> break_index_of(#[trigger] s[i].start) >= 0
}

/// The weekdays climb without a gap: the first event sits on Monday or
/// Tuesday, and no step skips a weekday.  A sorted week that skips a day in
/// the middle is rejected rather than silently misgrouped.
pub open spec fn gap_free(s: Seq<EventView>) -> bool {
    &&& (s.len() > 0 ==> weekday_index_of(s[0].weekday) <= 1)
    &&& forall|i: int|
        0 <= i < s.len() - 1 ==> weekday_index_of(#[trigger] s[i + 1].weekday)
            <= weekday_index_of(s[i].weekday) + 1
}

/// A break bucket of day `d`: non-empty, all on that weekday, all with one
/// start time.
pub open spec fn good_bucket(b: Seq<EventView>, d: int) -> bool {
    &&& b.len() > 0
    &&& forall|j: int|
        0 <= j < b.len() ==> weekday_index_of(#[trigger] b[j].weekday) == d && b[j].start
            == b[0].start
}

/// A day's bucket list: each bucket good, and the buckets in strictly
/// increasing break order.
pub open spec fn good_day(day: Seq<Seq<EventView>>, d: int) -> bool {
    &&& forall|k: int| 0 <= k < day.len() ==> good_bucket(#[trigger] day[k], d)
    &&& forall|k: int|
        0 <= k < day.len() - 1 ==> break_index_of(day[k][0].start) < break_index_of(
            (#[trigger] day[k + 1])[0].start,
        )
}

/// `g` groups `s`: five days, the days' buckets concatenated in order give
/// `s` back, and each day's buckets are that weekday's maximal runs of one
/// start time.
pub open spec fn is_grouping(s: Seq<EventView>, g: Seq<Seq<Seq<EventView>>>) -> bool {
    &&& g.len() == 5
    &&& g.flatten().flatten() == s
    &&& forall|d: int| 0 <= d < 5 ==> good_day(#[trigger] g[d], d)
}

/// The weekday index of an event, `-1` when the name is none of the five.
fn event_weekday_index(ev: &Event) -> (r: i64)
    ensures
        r as int == weekday_index_of(ev@.weekday),
{
    match weekday_index(ev.weekday().as_str()) {
        Some(i) => i as i64,
        None => -1,
    }
}

/// Under the two-key order, adjacent order gives total order.
proof fn lemma_key_le_chain(s: Seq<EventView>, i: int, j: int)
    requires
        forall|k: int| 0 <= k < s.len() - 1 ==> key_le(#[trigger] s[k], s[k + 1]),
        0 <= i < j < s.len(),
    ensures
        key_le(s[i], s[j]),
    decreases j - i,
{
    if i + 1 < j {
        lemma_key_le_chain(s, i, j - 1);
        assert(key_le(s[j - 1], s[j]));
    }
}

/// Groups sorted, validated events into the five days' break buckets.
#[verifier::rlimit(60)]
fn build_groups(events: &Vec<Event>) -> (r: Vec<Vec<Vec<Event>>>)
    requires
        all_weekdays_known(events.deep_view()),
        all_breaks_known(events.deep_view()),
        sorted_by_key(events.deep_view()),
    ensures
        is_grouping(events.deep_view(), r.deep_view()),
{
    let ghost dv = events.deep_view();
    let n = events.len();
    let mut days: Vec<Vec<Vec<Event>>> = Vec::new();
    let mut i: usize = 0;
    let mut d: usize = 0;
    proof {
        assert(days.deep_view() =~= Seq::<Seq<Seq<EventView>>>::empty());
        assert(days.deep_view().flatten() =~= Seq::<Seq<EventView>>::empty());
        assert(days.deep_view().flatten().flatten() =~= Seq::<EventView>::empty());
        assert(dv.take(0) =~= Seq::<EventView>::empty());
    }
    while d < 5
        invariant
            n == events@.len(),
            n == dv.len(),
            dv == events.deep_view(),
            all_weekdays_known(dv),
            all_breaks_known(dv),
            sorted_by_key(dv),
            forall|k: int| 0 <= k < n ==> dv[k] == #[trigger] events@[k]@,
            d <= 5,
            i <= n,
            days.deep_view().len() == d,
            days.deep_view().flatten().flatten() == dv.take(i as int),
            forall|e: int| 0 <= e < d ==> good_day(#[trigger] days.deep_view()[e], e),
            forall|k: int| 0 <= k < i ==> weekday_index_of(#[trigger] dv[k].weekday) < d,
            forall|k: int| i <= k < n ==> weekday_index_of(#[trigger] dv[k].weekday) >= d,
        decreases 5 - d,
    {
        let ghost day_start = i as int;
        let mut day: Vec<Vec<Event>> = Vec::new();
        let mut cur: Vec<Event> = Vec::new();
        proof {
            assert(day.deep_view() =~= Seq::<Seq<EventView>>::empty());
            assert(day.deep_view().flatten() =~= Seq::<EventView>::empty());
            assert(cur.deep_view() =~= Seq::<EventView>::empty());
            assert(day.deep_view().flatten() + cur.deep_view() =~= dv.subrange(
                day_start,
                i as int,
            ));
        }
        while i < n && event_weekday_index(&events[i]) == d as i64
            invariant
                n == events@.len(),
                n == dv.len(),
                dv == events.deep_view(),
                all_weekdays_known(dv),
                all_breaks_known(dv),
                sorted_by_key(dv),
                forall|k: int| 0 <= k < n ==> dv[k] == #[trigger] events@[k]@,
                d < 5,
                0 <= day_start,
                day_start <= i as int <= n,
                day.deep_view().flatten() + cur.deep_view() == dv.subrange(day_start, i as int),
                forall|k: int|
                    day_start <= k < i as int ==> weekday_index_of(#[trigger] dv[k].weekday)
                        == d,
                forall|k: int| 0 <= k < day_start ==> weekday_index_of(#[trigger] dv[k].weekday) < d,
                day.deep_view().len() == 0 && cur.deep_view().len() == 0 ==> i as int
                    == day_start,
                forall|k: int| 0 <= k < day.deep_view().len() ==> good_bucket(
                    #[trigger] day.deep_view()[k],
                    d as int,
                ),
                forall|k: int|
                    0 <= k < day.deep_view().len() - 1 ==> break_index_of(
                        day.deep_view()[k][0].start,
                    ) < break_index_of((#[trigger] day.deep_view()[k + 1])[0].start),
                cur.deep_view().len() > 0 ==> good_bucket(cur.deep_view(), d as int),
                cur.deep_view().len() == 0 ==> day.deep_view().len() == 0,
                day.deep_view().len() > 0 && cur.deep_view().len() > 0 ==> break_index_of(
                    day.deep_view().last()[0].start,
                ) < break_index_of(cur.deep_view()[0].start),
            decreases n - i,
        {
            let ghost x = dv[i as int];
            let ev = events[i].clone();
            proof {
                assert(dv.subrange(day_start, i + 1) =~= dv.subrange(day_start, i as int)
                    + seq![x]);
            }
            if cur.len() == 0 {
                let ghost old_day = day.deep_view();
                cur.push(ev);
                proof {
                    assert(cur.deep_view() =~~= seq![x]);
                    assert(old_day.flatten() + seq![x] =~= dv.subrange(day_start, i + 1));
                    assert(weekday_index_of(x.weekday) == d);
                    assert(good_bucket(cur.deep_view(), d as int));
                }
            } else {
                let same = *cur[0].start() == *ev.start();
                if same {
                    let ghost old_cur = cur.deep_view();
                    cur.push(ev);
                    proof {
                        assert(cur.deep_view() =~~= old_cur.push(x));
                        assert(day.deep_view().flatten() + old_cur.push(x) =~= (
                        day.deep_view().flatten() + old_cur) + seq![x]);
                        assert(weekday_index_of(x.weekday) == d);
                        assert(x.start == old_cur[0].start);
                        assert(cur.deep_view()[0] == old_cur[0]);
                        assert forall|j: int| 0 <= j < cur.deep_view().len() implies weekday_index_of(
                            (#[trigger] cur.deep_view()[j]).weekday,
                        ) == d && cur.deep_view()[j].start == cur.deep_view()[0].start by {
                            if j < old_cur.len() {
                                assert(cur.deep_view()[j] == old_cur[j]);
                            } else {
                                assert(cur.deep_view()[j] == x);
                            }
                        }
                        assert(good_bucket(cur.deep_view(), d as int));
                    }
                } else {
                    let ghost old_cur = cur.deep_view();
                    let ghost old_day = day.deep_view();
                    proof {
                        // the run ends: the new start is strictly later, so its
                        // break index is strictly larger
                        let seg = dv.subrange(day_start, i as int);
                        assert(seg.len() == old_day.flatten().len() + old_cur.len());
                        assert(seg[seg.len() - 1] == dv[i - 1]);
                        assert((old_day.flatten() + old_cur)[seg.len() - 1] == old_cur[old_cur.len()
                            - 1]);
                        assert(dv[i - 1] == old_cur.last());
                        assert(old_cur.last().start == old_cur[0].start);
                        assert(key_le(dv[i - 1], x));
                        assert(weekday_index_of(old_cur.last().weekday) == d);
                        assert(weekday_index_of(x.weekday) == d);
                        assert(old_cur[0].start < x.start);
                        lemma_break_index_monotone(old_cur[0].start, x.start);
                    }
                    let done = cur;
                    cur = Vec::new();
                    cur.push(ev);
                    day.push(done);
                    proof {
                        assert(cur.deep_view() =~~= seq![x]);
                        assert(weekday_index_of(x.weekday) == d);
                        assert(good_bucket(cur.deep_view(), d as int));
                        assert(day.deep_view() =~~= old_day.push(old_cur));
                        old_day.lemma_flatten_push(old_cur);
                        assert(day.deep_view().flatten() + cur.deep_view() =~= (
                        old_day.flatten() + old_cur) + seq![x]);
                        assert(forall|k: int|
                            0 <= k < old_day.len() ==> day.deep_view()[k] == #[trigger] old_day[k]);
                        assert(day.deep_view().last() == old_cur);
                    }
                }
            }
            i = i + 1;
        }
        proof {
            // every remaining event sits on a later weekday
            if i < n {
                assert(weekday_index_of(dv[i as int].weekday) > d);
                assert forall|k: int|
                    i as int <= k < n implies weekday_index_of(#[trigger] dv[k].weekday) >= d
                        + 1 by {
                    if k > i as int {
                        assert(key_le(dv[i as int], dv[k]));
                    }
                }
            }
        }
        let ghost old_days = days.deep_view();
        let ghost final_day = if cur.len() > 0 {
            day.deep_view().push(cur.deep_view())
        } else {
            day.deep_view()
        };
        if cur.len() > 0 {
            let ghost old_day = day.deep_view();
            let ghost old_cur = cur.deep_view();
            day.push(cur);
            proof {
                assert(day.deep_view() =~~= old_day.push(old_cur));
                old_day.lemma_flatten_push(old_cur);
                assert(day.deep_view().flatten() =~= dv.subrange(day_start, i as int));
            }
        } else {
            proof {
                assert(cur.deep_view() =~= Seq::<EventView>::empty());
                assert(day.deep_view().flatten() =~= dv.subrange(day_start, i as int));
            }
        }
        days.push(day);
        proof {
            assert(days.deep_view() =~~= old_days.push(final_day));
            old_days.lemma_flatten_push(final_day);
            vstd::seq_lib::lemma_flatten_concat(
                old_days.flatten(),
                final_day,
            );
            assert(dv.take(day_start) + dv.subrange(day_start, i as int) =~= dv.take(i as int));
            assert(days.deep_view().flatten().flatten() == dv.take(i as int));
            assert(good_day(final_day, d as int));
            assert(forall|e: int|
                0 <= e < old_days.len() ==> days.deep_view()[e] == #[trigger] old_days[e]);
        }
        d = d + 1;
    }
    proof {
        if i < n {
            assert(weekday_index_of(dv[i as int].weekday) >= 5);
            assert(weekday_index_of(dv[i as int].weekday) <= 4);
        }
        assert(i == n);
        assert(dv.take(n as int) =~= dv);
    }
    days
}

/// Groups events into the report's shape: five weekdays, each a list of break
/// buckets in order, each bucket one run of a single start time.  The events
/// must come validated and sorted; the first violation found is the error,
/// checked in this order: an unknown weekday, an unknown break start, events
/// out of weekday-and-start order, and a skipped weekday.
pub fn group_breaks(events: &Vec<Event>) -> (r: Result<Vec<Vec<Vec<Event>>>, GroupingError>)
    ensures
        (match r {
            Ok(g) => all_weekdays_known(events.deep_view()) && all_breaks_known(
                events.deep_view(),
            ) && sorted_by_key(events.deep_view()) && gap_free(events.deep_view()) && is_grouping(
                events.deep_view(),
                g.deep_view(),
            ),
            Err(GroupingError::UnknownWeekday) => !all_weekdays_known(events.deep_view()),
            Err(GroupingError::UnknownBreakStart) => all_weekdays_known(events.deep_view())
                && !all_breaks_known(events.deep_view()),
            Err(GroupingError::OutOfOrder) => all_weekdays_known(events.deep_view())
                && all_breaks_known(events.deep_view()) && !sorted_by_key(events.deep_view()),
            Err(GroupingError::WeekdayGap) => all_weekdays_known(events.deep_view())
                && all_breaks_known(events.deep_view()) && sorted_by_key(events.deep_view())
                && !gap_free(events.deep_view()),
        }),
{
    let ghost dv = events.deep_view();
    let n = events.len();
    let mut i: usize = 0;
    while i < n
        invariant
            n == events@.len(),
            n == dv.len(),
            dv == events.deep_view(),
            forall|k: int| 0 <= k < n ==> dv[k] == #[trigger] events@[k]@,
            i <= n,
            forall|k: int| 0 <= k < i ==> weekday_index_of(#[trigger] dv[k].weekday) >= 0,
        decreases n - i,
    {
        if event_weekday_index(&events[i]) < 0 {
            proof {
                assert(!all_weekdays_known(dv)) by {
                    assert(weekday_index_of(dv[i as int].weekday) < 0);
                }
            }
            return Err(GroupingError::UnknownWeekday);
        }
        i = i + 1;
    }
    let mut i: usize = 0;
    while i < n
        invariant
            n == events@.len(),
            n == dv.len(),
            dv == events.deep_view(),
            forall|k: int| 0 <= k < n ==> dv[k] == #[trigger] events@[k]@,
            i <= n,
            all_weekdays_known(dv),
            forall|k: int| 0 <= k < i ==> break_index_of(#[trigger] dv[k].start) >= 0,
        decreases n - i,
    {
        if let None = break_index(*events[i].start()) {
            proof {
                assert(!all_breaks_known(dv)) by {
                    assert(break_index_of(dv[i as int].start) < 0);
                }
            }
            return Err(GroupingError::UnknownBreakStart);
        }
        i = i + 1;
    }
    let mut i: usize = 1;
    while i < n
        invariant
            n == events@.len(),
            n == dv.len(),
            dv == events.deep_view(),
            forall|k: int| 0 <= k < n ==> dv[k] == #[trigger] events@[k]@,
            1 <= i,
            i <= n || n == 0,
            all_weekdays_known(dv),
            all_breaks_known(dv),
            forall|k: int| 0 <= k < i - 1 ==> key_le(#[trigger] dv[k], dv[k + 1]),
        decreases n - i,
    {
        if !key_le_exec(&events[i - 1], &events[i]) {
            proof {
                assert(!sorted_by_key(dv)) by {
                    if sorted_by_key(dv) {
                        assert(key_le(dv[i - 1], dv[i as int]));
                    }
                }
            }
            return Err(GroupingError::OutOfOrder);
        }
        i = i + 1;
    }
    proof {
        assert forall|a: int, b: int| 0 <= a < b < dv.len() implies key_le(
            #[trigger] dv[a],
            #[trigger] dv[b],
        ) by {
            lemma_key_le_chain(dv, a, b);
        }
    }
    if n > 0 {
        if event_weekday_index(&events[0]) > 1 {
            proof {
                assert(!gap_free(dv));
            }
            return Err(GroupingError::WeekdayGap);
        }
    }
    let mut i: usize = 1;
    while i < n
        invariant
            n == events@.len(),
            n == dv.len(),
            dv == events.deep_view(),
            forall|k: int| 0 <= k < n ==> dv[k] == #[trigger] events@[k]@,
            1 <= i,
            i <= n || n == 0,
            all_weekdays_known(dv),
            all_breaks_known(dv),
            sorted_by_key(dv),
            n > 0 ==> weekday_index_of(dv[0].weekday) <= 1,
            forall|k: int|
                0 <= k < i - 1 ==> weekday_index_of(#[trigger] dv[k + 1].weekday)
                    <= weekday_index_of(dv[k].weekday) + 1,
        decreases n - i,
    {
        let wa = event_weekday_index(&events[i - 1]);
        let wb = event_weekday_index(&events[i]);
        if wb > wa + 1 {
            proof {
                assert(!gap_free(dv)) by {
                    if gap_free(dv) {
                        assert(weekday_index_of(dv[i - 1 + 1].weekday) <= weekday_index_of(
                            dv[i - 1].weekday,
                        ) + 1);
                    }
                }
            }
            return Err(GroupingError::WeekdayGap);
        }
        i = i + 1;
    }
    Ok(build_groups(events))
}

/// The six locations the missing-location report covers, in its fixed order.
/// The enumeration has a seventh location, the wing alone, which the fixed
/// coverage list deliberately leaves out.
pub open spec fn coverage_places() -> Seq<BreakPlace> {
    seq![
        BreakPlace::IikoonLinna,
        BreakPlace::Downstairs,
        BreakPlace::Upstairs,
        BreakPlace::FrontYard,
        BreakPlace::WingAndShed,
        BreakPlace::D,
    ]
}

/// Some event of the bucket classifies to this location.
pub open spec fn has_place(evs: Seq<EventView>, p: BreakPlace) -> bool {
    exists|i: int| 0 <= i < evs.len() && place_of_title(#[trigger] evs[i].text) == Some(p)
}

/// Every event of the bucket classifies to some location.
pub open spec fn places_ok(evs: Seq<EventView>) -> bool {
    forall|i: int| 0 <= i < evs.len() ==> place_of_title(#[trigger] evs[i].text) is Some
}

/// The locations of the fixed list that no event of the bucket covers, in the
/// list's order.
pub open spec fn missing_from(list: Seq<BreakPlace>, evs: Seq<EventView>) -> Seq<BreakPlace>
    decreases list.len(),
{
    if list.len() == 0 {
        Seq::empty()
    } else if has_place(evs, list[0]) {
        missing_from(list.drop_first(), evs)
    } else {
        seq![list[0]] + missing_from(list.drop_first(), evs)
    }
}

/// Whether some event of the bucket classifies to `p`.
fn has_place_exec(bucket: &Vec<Event>, p: BreakPlace) -> (r: bool)
    ensures
        r == has_place(bucket.deep_view(), p),
{
    let ghost dv = bucket.deep_view();
    let n = bucket.len();
    let mut i: usize = 0;
    while i < n
        invariant
            n == bucket@.len(),
            n == dv.len(),
            dv == bucket.deep_view(),
            forall|k: int| 0 <= k < n ==> dv[k] == #[trigger] bucket@[k]@,
            i <= n,
            forall|k: int| 0 <= k < i ==> place_of_title(#[trigger] dv[k].text) != Some(p),
        decreases n - i,
    {
        match bucket[i].place() {
            Ok(q) => {
                if q == p {
                    return true;
                }
            },
            Err(_) => {},
        }
        i = i + 1;
    }
    false
}

/// The locations of the fixed six-place list that no event of the bucket is
/// assigned to.  A bucket event whose title classifies to no location at all
/// is an error, as it would be wherever its place were read.
pub fn missing_places(bucket: &Vec<Event>) -> (r: Result<Vec<BreakPlace>, DecodeError>)
    ensures
        (match r {
            Ok(ms) => places_ok(bucket.deep_view()) && ms@ == missing_from(
                coverage_places(),
                bucket.deep_view(),
            ),
            Err(e) => !places_ok(bucket.deep_view()) && e == DecodeError::UnknownBreakPlace,
        }),
{
    let ghost dv = bucket.deep_view();
    let n = bucket.len();
    let mut i: usize = 0;
    while i < n
        invariant
            n == bucket@.len(),
            n == dv.len(),
            dv == bucket.deep_view(),
            forall|k: int| 0 <= k < n ==> dv[k] == #[trigger] bucket@[k]@,
            i <= n,
            forall|k: int| 0 <= k < i ==> place_of_title(#[trigger] dv[k].text) is Some,
        decreases n - i,
    {
        if let Err(_) = bucket[i].place() {
            return Err(DecodeError::UnknownBreakPlace);
        }
        i = i + 1;
    }
    let mut list: Vec<BreakPlace> = Vec::new();
    list.push(BreakPlace::IikoonLinna);
    list.push(BreakPlace::Downstairs);
    list.push(BreakPlace::Upstairs);
    list.push(BreakPlace::FrontYard);
    list.push(BreakPlace::WingAndShed);
    list.push(BreakPlace::D);
    proof {
        assert(list@ =~= coverage_places());
    }
    let mut out: Vec<BreakPlace> = Vec::new();
    let mut j: usize = 0;
    proof {
        assert(list@.skip(0) =~= list@);
        assert(out@ =~= Seq::<BreakPlace>::empty());
    }
    while j < 6
        invariant
            list@ == coverage_places(),
            dv == bucket.deep_view(),
            j <= 6,
            list@.len() == 6,
            missing_from(coverage_places(), dv) =~= out@ + missing_from(
                list@.skip(j as int),
                dv,
            ),
        decreases 6 - j,
    {
        let ghost tail = list@.skip(j as int);
        proof {
            assert(tail[0] == list@[j as int]);
            assert(tail.drop_first() =~= list@.skip(j + 1));
        }
        let p = list[j];
        if !has_place_exec(bucket, p) {
            let ghost old_out = out@;
            out.push(p);
            proof {
                assert(old_out + (seq![tail[0]] + missing_from(list@.skip(j + 1), dv))
                    =~= out@ + missing_from(list@.skip(j + 1), dv));
            }
        }
        j = j + 1;
    }
    proof {
        assert(list@.skip(6) =~= Seq::<BreakPlace>::empty());
        assert(out@ + missing_from(Seq::<BreakPlace>::empty(), dv) =~= out@);
    }
    Ok(out)
}

} // verus!
