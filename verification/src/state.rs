//! The derived aggregate: event payloads grouped by event type and date.
//! Types keep first-insertion order, the days of one type stay sorted by
//! date, and the payloads of one day keep insertion order; the abstraction
//! is a map from type to a map from date to the payload sequence.

use vstd::prelude::*;
use crate::date::Date;
use crate::event::Event;
use crate::event::EventType;
use crate::event::EventDetails;
use crate::event::details_match;

verus! {

/// All payloads recorded under one (type, date) key, in insertion order.
#[derive(Clone, Debug)]
pub struct DayEntry {
    pub date: Date,
    pub details: Vec<EventDetails>,
}

/// The days of one event type, ordered by date.
#[derive(Clone, Debug)]
pub struct TypeEntry {
    pub etype: EventType,
    pub days: Vec<DayEntry>,
}

/// The aggregate index over the journal, a rebuildable cache.
#[derive(Clone, Debug)]
pub struct StateByEvent {
    pub entries: Vec<TypeEntry>,
}

/// A date as one integer, ordered as dates are; injective on valid dates.
pub open spec fn date_key(d: Date) -> int {
    d.year * 10000 + d.month * 100 + d.day
}

pub proof fn lemma_date_key_injective(a: Date, b: Date)
    requires
        a.valid(),
        b.valid(),
        date_key(a) == date_key(b),
    ensures
        a == b,
{
}

pub fn date_key_exec(d: Date) -> (r: u32)
    ensures
        r as int == date_key(d),
{
    (d.year as u32) * 10000 + (d.month as u32) * 100 + (d.day as u32)
}

impl DayEntry {
    pub open spec fn wf(self) -> bool {
        self.date.valid() && self.details@.len() >= 1
    }
}

pub open spec fn days_wf(days: Seq<DayEntry>) -> bool {
    forall|i: int| 0 <= i < days.len() ==> (#[trigger] days[i]).wf()
}

/// Every payload of the day has the shape that event type `t` carries.
pub open spec fn day_shapes_ok(t: EventType, de: DayEntry) -> bool {
    forall|j: int| 0 <= j < de.details@.len() ==> details_match(t, #[trigger] de.details@[j])
}

pub open spec fn days_sorted(days: Seq<DayEntry>) -> bool {
    forall|a: int, b: int|
        0 <= a < b < days.len() ==> date_key(#[trigger] days[a].date) < date_key(
            #[trigger] days[b].date,
        )
}

impl TypeEntry {
    pub open spec fn wf(self) -> bool {
        &&& self.days@.len() >= 1
        &&& days_wf(self.days@)
        &&& days_sorted(self.days@)
        &&& forall|i: int|
            0 <= i < self.days@.len() ==> day_shapes_ok(self.etype, #[trigger] self.days@[i])
    }
}

/// Which index of `days` holds `d`, where some index does.
pub open spec fn day_index(days: Seq<DayEntry>, d: Date) -> int {
    choose|i: int| 0 <= i < days.len() && (#[trigger] days[i]).date == d
}

pub open spec fn has_day(days: Seq<DayEntry>, d: Date) -> bool {
    exists|i: int| 0 <= i < days.len() && (#[trigger] days[i]).date == d
}

/// The map a day list denotes: date to payload sequence.
pub open spec fn day_map(days: Seq<DayEntry>) -> Map<Date, Seq<EventDetails>> {
    Map::new(|d: Date| has_day(days, d), |d: Date| days[day_index(days, d)].details@)
}

pub proof fn lemma_day_index_is(days: Seq<DayEntry>, i: int)
    requires
        0 <= i < days.len(),
        days_sorted(days),
    ensures
        has_day(days, days[i].date),
        day_index(days, days[i].date) == i,
        day_map(days).dom().contains(days[i].date),
        day_map(days)[days[i].date] == days[i].details@,
{
    assert(has_day(days, days[i].date));
    let j = day_index(days, days[i].date);
    if j != i {
        if j < i {
            assert(date_key(days[j].date) < date_key(days[i].date));
        } else {
            assert(date_key(days[i].date) < date_key(days[j].date));
        }
    }
}

impl StateByEvent {
    pub open spec fn types_distinct(self) -> bool {
        forall|i: int, j: int|
            0 <= i < j < self.entries@.len() ==> (#[trigger] self.entries@[i]).etype != (
            #[trigger] self.entries@[j]).etype
    }

    pub open spec fn wf(self) -> bool {
        self.types_distinct() && forall|i: int|
            0 <= i < self.entries@.len() ==> (#[trigger] self.entries@[i]).wf()
    }

    pub open spec fn has_type(self, t: EventType) -> bool {
        exists|i: int| 0 <= i < self.entries@.len() && (#[trigger] self.entries@[i]).etype == t
    }

    pub open spec fn type_index(self, t: EventType) -> int {
        choose|i: int| 0 <= i < self.entries@.len() && (#[trigger] self.entries@[i]).etype == t
    }

    /// The abstraction this type is about: event type to date to the
    /// payloads recorded under that key, in insertion order.
    pub open spec fn as_map(self) -> Map<EventType, Map<Date, Seq<EventDetails>>> {
        Map::new(
            |t: EventType| self.has_type(t),
            |t: EventType| day_map(self.entries@[self.type_index(t)].days@),
        )
    }
}

pub proof fn lemma_type_index_is(s: StateByEvent, i: int)
    requires
        s.types_distinct(),
        0 <= i < s.entries@.len(),
    ensures
        s.has_type(s.entries@[i].etype),
        s.type_index(s.entries@[i].etype) == i,
        s.as_map().dom().contains(s.entries@[i].etype),
        s.as_map()[s.entries@[i].etype] == day_map(s.entries@[i].days@),
{
    assert(s.has_type(s.entries@[i].etype));
    let j = s.type_index(s.entries@[i].etype);
    if j != i {
        if j < i {
            assert(s.entries@[j].etype != s.entries@[i].etype);
        } else {
            assert(s.entries@[i].etype != s.entries@[j].etype);
        }
    }
}

/// What one added event does to the abstraction: the payload goes to the end
/// of the sequence under its (type, date) key, which is created when absent;
/// every other key is untouched.
pub open spec fn spec_add_map(
    m: Map<EventType, Map<Date, Seq<EventDetails>>>,
    e: Event,
) -> Map<EventType, Map<Date, Seq<EventDetails>>> {
    let dm = if m.dom().contains(e.event_type) {
        m[e.event_type]
    } else {
        Map::empty()
    };
    let s = if dm.dom().contains(e.date) {
        dm[e.date]
    } else {
        Seq::empty()
    };
    m.insert(e.event_type, dm.insert(e.date, s.push(e.details)))
}

fn find_type(entries: &Vec<TypeEntry>, t: EventType) -> (r: Option<usize>)
    ensures
        r is Some ==> r.unwrap() < entries@.len() && entries@[r.unwrap() as int].etype == t,
        r is None ==> forall|i: int|
            0 <= i < entries@.len() ==> (#[trigger] entries@[i]).etype != t,
{
    let mut i: usize = 0;
    while i < entries.len()
        invariant
            0 <= i <= entries@.len(),
            forall|j: int| 0 <= j < i ==> (#[trigger] entries@[j]).etype != t,
        decreases entries@.len() - i,
    {
        if entries[i].etype == t {
            return Some(i);
        }
        i = i + 1;
    }
    None
}

fn find_day(days: &Vec<DayEntry>, d: Date) -> (r: Option<usize>)
    ensures
        r is Some ==> r.unwrap() < days@.len() && days@[r.unwrap() as int].date == d,
        r is None ==> forall|i: int| 0 <= i < days@.len() ==> (#[trigger] days@[i]).date != d,
{
    let mut i: usize = 0;
    while i < days.len()
        invariant
            0 <= i <= days@.len(),
            forall|j: int| 0 <= j < i ==> (#[trigger] days@[j]).date != d,
        decreases days@.len() - i,
    {
        if days[i].date == d {
            return Some(i);
        }
        i = i + 1;
    }
    None
}

/// Where a new day for date `d` belongs in a sorted day list that lacks `d`.
fn insert_pos(days: &Vec<DayEntry>, d: Date) -> (p: usize)
    requires
        d.valid(),
        days_wf(days@),
        days_sorted(days@),
        forall|i: int| 0 <= i < days@.len() ==> (#[trigger] days@[i]).date != d,
    ensures
        p <= days@.len(),
        forall|j: int| 0 <= j < p ==> date_key(#[trigger] days@[j].date) < date_key(d),
        forall|j: int| p <= j < days@.len() ==> date_key(#[trigger] days@[j].date) > date_key(d),
{
    let k = date_key_exec(d);
    let mut p: usize = 0;
    while p < days.len()
        invariant
            k as int == date_key(d),
            d.valid(),
            days_wf(days@),
            days_sorted(days@),
            forall|i: int| 0 <= i < days@.len() ==> (#[trigger] days@[i]).date != d,
            0 <= p <= days@.len(),
            forall|j: int| 0 <= j < p ==> date_key(#[trigger] days@[j].date) < date_key(d),
        decreases days@.len() - p,
    {
        let dk = date_key_exec(days[p].date);
        if dk > k {
            proof {
                assert forall|j: int|
                    p <= j < days@.len() implies date_key(#[trigger] days@[j].date) > date_key(
                    d,
                ) by {
                    if j > p {
                        assert(date_key(days@[p as int].date) < date_key(days@[j].date));
                    }
                }
            }
            return p;
        }
        proof {
            if date_key(days@[p as int].date) == date_key(d) {
                lemma_date_key_injective(days@[p as int].date, d);
            }
        }
        p = p + 1;
    }
    p
}

/// Appending one payload to the day at index `di` changes only that date's
/// sequence, by one pushed element.
proof fn lemma_day_map_update(days0: Seq<DayEntry>, days1: Seq<DayEntry>, di: int, det: EventDetails)
    requires
        days_wf(days0),
        days_sorted(days0),
        0 <= di < days0.len(),
        days1.len() == days0.len(),
        days1[di].date == days0[di].date,
        days1[di].details@ == days0[di].details@.push(det),
        forall|j: int| 0 <= j < days0.len() && j != di ==> days1[j] == days0[j],
    ensures
        days_wf(days1),
        days_sorted(days1),
        days1.len() >= 1,
        day_map(days1) == day_map(days0).insert(
            days0[di].date,
            day_map(days0)[days0[di].date].push(det),
        ),
{
    assert forall|i: int| 0 <= i < days1.len() implies (#[trigger] days1[i]).wf() by {
        assert(days1[i].date == days0[i].date);
        assert(days0[i].wf());
    }
    assert forall|a: int, b: int|
        0 <= a < b < days1.len() implies date_key(#[trigger] days1[a].date) < date_key(
        #[trigger] days1[b].date,
    ) by {
        assert(days1[a].date == days0[a].date);
        assert(days1[b].date == days0[b].date);
    }
    let d0 = days0[di].date;
    lemma_day_index_is(days0, di);
    lemma_day_index_is(days1, di);
    assert forall|x: Date| true implies has_day(days1, x) == has_day(days0, x) by {
        if has_day(days0, x) {
            let i = day_index(days0, x);
            assert(days1[i].date == x);
        }
        if has_day(days1, x) {
            let i = day_index(days1, x);
            assert(days0[i].date == x);
        }
    }
    assert forall|x: Date| has_day(days1, x) implies day_map(days1)[x] == day_map(days0).insert(
        d0,
        day_map(days0)[d0].push(det),
    )[x] by {
        let i = day_index(days1, x);
        assert(days1[i].date == x);
        lemma_day_index_is(days1, i);
        lemma_day_index_is(days0, i);
        assert(days0[i].date == x);
        if i == di {
            assert(x == d0);
            assert(day_map(days1)[x] == days1[di].details@);
        } else {
            assert(x != d0) by {
                if x == d0 {
                    lemma_day_index_is(days1, di);
                }
            };
            assert(day_map(days1)[x] == days1[i].details@);
            assert(days1[i] == days0[i]);
        }
    }
    assert(day_map(days1) =~= day_map(days0).insert(d0, day_map(days0)[d0].push(det)));
}

/// Inserting a fresh day at its sorted position adds exactly one key to the
/// day map, bound to the single pushed payload.
proof fn lemma_day_map_insert(
    days0: Seq<DayEntry>,
    days1: Seq<DayEntry>,
    p: int,
    d: Date,
    det: EventDetails,
)
    requires
        days_wf(days0),
        days_sorted(days0),
        d.valid(),
        0 <= p <= days0.len(),
        days1.len() == days0.len() + 1,
        days1[p].date == d,
        days1[p].details@ == Seq::<EventDetails>::empty().push(det),
        forall|j: int| 0 <= j < p ==> days1[j] == days0[j],
        forall|j: int| p <= j < days0.len() ==> days1[j + 1] == days0[j],
        forall|j: int| 0 <= j < p ==> date_key(#[trigger] days0[j].date) < date_key(d),
        forall|j: int| p <= j < days0.len() ==> date_key(#[trigger] days0[j].date) > date_key(d),
    ensures
        days_wf(days1),
        days_sorted(days1),
        days1.len() >= 1,
        !day_map(days0).dom().contains(d),
        day_map(days1) == day_map(days0).insert(d, Seq::<EventDetails>::empty().push(det)),
{
    assert forall|i: int| 0 <= i < days1.len() implies (#[trigger] days1[i]).wf() by {
        if i < p {
            assert(days1[i] == days0[i]);
        } else if i > p {
            assert(days1[i] == days0[i - 1]);
        }
    }
    assert forall|a: int, b: int|
        0 <= a < b < days1.len() implies date_key(#[trigger] days1[a].date) < date_key(
        #[trigger] days1[b].date,
    ) by {
        if a < p {
            assert(days1[a] == days0[a]);
        } else if a > p {
            assert(days1[a] == days0[a - 1]);
        }
        if b < p {
            assert(days1[b] == days0[b]);
        } else if b > p {
            assert(days1[b] == days0[b - 1]);
        }
    }
    assert(!has_day(days0, d)) by {
        if has_day(days0, d) {
            let i = day_index(days0, d);
            if i < p {
                assert(date_key(days0[i].date) < date_key(d));
            } else {
                assert(date_key(days0[i].date) > date_key(d));
            }
        }
    };
    lemma_day_index_is(days1, p);
    assert forall|x: Date| true implies has_day(days1, x) == (has_day(days0, x) || x == d) by {
        if has_day(days0, x) {
            let i = day_index(days0, x);
            if i < p {
                assert(days1[i].date == x);
            } else {
                assert(days1[i + 1].date == x);
            }
        }
        if has_day(days1, x) && x != d {
            let i = day_index(days1, x);
            if i < p {
                assert(days0[i].date == x);
            } else if i > p {
                assert(days0[i - 1].date == x);
            }
        }
    }
    assert forall|x: Date| has_day(days1, x) implies day_map(days1)[x] == day_map(days0).insert(
        d,
        Seq::<EventDetails>::empty().push(det),
    )[x] by {
        let i = day_index(days1, x);
        assert(days1[i].date == x);
        lemma_day_index_is(days1, i);
        if i == p {
            assert(x == d);
        } else {
            assert(x != d) by {
                if x == d {
                    lemma_day_index_is(days1, p);
                }
            };
            if i < p {
                assert(days1[i] == days0[i]);
                lemma_day_index_is(days0, i);
            } else {
                assert(days1[i] == days0[i - 1]);
                lemma_day_index_is(days0, i - 1);
            }
        }
    }
    assert(day_map(days1) =~= day_map(days0).insert(d, Seq::<EventDetails>::empty().push(det)));
}

impl StateByEvent {
    /// An empty index: no types, no days, no payloads.
    pub fn new() -> (r: StateByEvent)
        ensures
            r.wf(),
            r.as_map() == Map::<EventType, Map<Date, Seq<EventDetails>>>::empty(),
    {
        let r = StateByEvent { entries: Vec::new() };
        proof {
            assert(r.as_map() =~= Map::<EventType, Map<Date, Seq<EventDetails>>>::empty());
        }
        r
    }

    /// The only mutation: appends `e.details` under `(e.event_type, e.date)`,
    /// creating the type and day entries when absent, never deduplicating
    /// and never reordering what is already there.
    pub fn add_event(&mut self, e: &Event)
        requires
            old(self).wf(),
            e.wf(),
        ensures
            final(self).wf(),
            final(self).as_map() == spec_add_map(old(self).as_map(), *e),
    {
        let ghost m0 = old(self).as_map();
        match find_type(&self.entries, e.event_type) {
            None => {
                let mut dets: Vec<EventDetails> = Vec::new();
                dets.push(e.details);
                let mut days: Vec<DayEntry> = Vec::new();
                days.push(DayEntry { date: e.date, details: dets });
                let te = TypeEntry { etype: e.event_type, days };
                self.entries.push(te);
                proof {
                    let s0 = *old(self);
                    let s1 = *self;
                    let n = s0.entries@.len() as int;
                    assert(s1.entries@ =~= s0.entries@.push(te));
                    assert forall|i: int, j: int|
                        0 <= i < j < s1.entries@.len() implies (#[trigger] s1.entries@[i]).etype
                        != (#[trigger] s1.entries@[j]).etype by {
                        if j < n {
                            assert(s0.entries@[i].etype != s0.entries@[j].etype);
                        } else {
                            assert(s1.entries@[j].etype == e.event_type);
                            assert(s0.entries@[i].etype != e.event_type);
                        }
                    }
                    assert(te.days@[0].details@ =~= seq![e.details]);
                    assert(day_shapes_ok(te.etype, te.days@[0]));
                    assert(te.wf());
                    assert forall|i: int|
                        0 <= i < s1.entries@.len() implies (#[trigger] s1.entries@[i]).wf() by {
                        if i < n {
                            assert(s1.entries@[i] == s0.entries@[i]);
                            assert(s0.entries@[i].wf());
                        } else {
                            assert(s1.entries@[i] == te);
                        }
                    }
                    assert(s1.wf());
                    assert(!s0.has_type(e.event_type));
                    lemma_type_index_is(s1, n);
                    assert forall|t: EventType| true implies spec_add_map(m0, *e).dom().contains(
                        t,
                    ) == s1.as_map().dom().contains(t) by {
                        if t != e.event_type {
                            if s0.has_type(t) {
                                let i = s0.type_index(t);
                                assert(s1.entries@[i].etype == t);
                            }
                            if s1.has_type(t) {
                                let i = s1.type_index(t);
                                assert(s1.entries@[i].etype == t);
                                assert(i < n);
                                assert(s0.entries@[i].etype == t);
                            }
                        }
                    }
                    assert forall|t: EventType| s1.as_map().dom().contains(t) implies s1.as_map()[t]
                        == spec_add_map(m0, *e)[t] by {
                        if t == e.event_type {
                            assert(s1.as_map()[t] == day_map(te.days@));
                            let dm1 = day_map(te.days@);
                            let dm2 = Map::<Date, Seq<EventDetails>>::empty().insert(
                                e.date,
                                Seq::<EventDetails>::empty().push(e.details),
                            );
                            lemma_day_index_is(te.days@, 0);
                            assert forall|d: Date| has_day(te.days@, d) implies d == e.date by {
                                let i = day_index(te.days@, d);
                                assert(i == 0);
                            }
                            assert(dm1 =~= dm2);
                        } else {
                            let i = s1.type_index(t);
                            assert(s1.entries@[i].etype == t);
                            assert(i < n);
                            assert(s0.entries@[i].etype == t);
                            lemma_type_index_is(s0, i);
                            lemma_type_index_is(s1, i);
                            assert(s1.entries@[i] == s0.entries@[i]);
                        }
                    }
                    assert(s1.as_map() =~= spec_add_map(m0, *e));
                }
            },
            Some(ti) => {
                proof {
                    lemma_type_index_is(*old(self), ti as int);
                    assert(old(self).entries@[ti as int].wf());
                }
                let mut te = self.entries.remove(ti);
                let ghost te0 = te;
                match find_day(&te.days, e.date) {
                    Some(di) => {
                        let mut de = te.days.remove(di);
                        de.details.push(e.details);
                        te.days.insert(di, de);
                        proof {
                            assert forall|j: int|
                                0 <= j < te0.days@.len() && j != di implies te.days@[j]
                                == te0.days@[j] by {
                                if j < di {
                                    assert(te.days@[j] == te0.days@.remove(di as int)[j]);
                                } else {
                                    assert(te.days@[j] == te0.days@.remove(di as int)[j - 1]);
                                }
                            }
                            lemma_day_map_update(te0.days@, te.days@, di as int, e.details);
                            lemma_day_index_is(te0.days@, di as int);
                            assert forall|i: int|
                                0 <= i < te.days@.len() implies day_shapes_ok(
                                te.etype,
                                #[trigger] te.days@[i],
                            ) by {
                                if i == di {
                                    assert forall|j: int|
                                        0 <= j < te.days@[i].details@.len() implies details_match(
                                        te.etype,
                                        #[trigger] te.days@[i].details@[j],
                                    ) by {
                                        if j < te0.days@[i].details@.len() {
                                            assert(te.days@[i].details@[j]
                                                == te0.days@[i].details@[j]);
                                            assert(day_shapes_ok(te0.etype, te0.days@[i]));
                                        } else {
                                            assert(te.days@[i].details@[j] == e.details);
                                        }
                                    }
                                } else {
                                    assert(te.days@[i] == te0.days@[i]);
                                    assert(day_shapes_ok(te0.etype, te0.days@[i]));
                                }
                            }
                            assert(te.wf());
                        }
                    },
                    None => {
                        let p = insert_pos(&te.days, e.date);
                        let mut dets: Vec<EventDetails> = Vec::new();
                        dets.push(e.details);
                        te.days.insert(p, DayEntry { date: e.date, details: dets });
                        proof {
                            lemma_day_map_insert(te0.days@, te.days@, p as int, e.date, e.details);
                            assert forall|i: int|
                                0 <= i < te.days@.len() implies day_shapes_ok(
                                te.etype,
                                #[trigger] te.days@[i],
                            ) by {
                                if i < p {
                                    assert(te.days@[i] == te0.days@[i]);
                                    assert(day_shapes_ok(te0.etype, te0.days@[i]));
                                } else if i > p {
                                    assert(te.days@[i] == te0.days@[i - 1]);
                                    assert(day_shapes_ok(te0.etype, te0.days@[i - 1]));
                                } else {
                                    assert(te.days@[i].details@ =~= seq![e.details]);
                                }
                            }
                            assert(te.wf());
                        }
                    },
                }
                self.entries.insert(ti, te);
                proof {
                    let s0 = *old(self);
                    let s1 = *self;
                    assert(s1.entries@ =~= s0.entries@.update(ti as int, te));
                    lemma_te_update_map(s0, s1, ti as int, te0, te, *e, m0);
                }
            },
        }
    }
}

/// Lifts a change of one type entry's day map to the whole abstraction.
proof fn lemma_te_update_map(
    s0: StateByEvent,
    s1: StateByEvent,
    ti: int,
    te0: TypeEntry,
    te1: TypeEntry,
    e: Event,
    m0: Map<EventType, Map<Date, Seq<EventDetails>>>,
)
    requires
        s0.wf(),
        e.wf(),
        m0 == s0.as_map(),
        0 <= ti < s0.entries@.len(),
        s0.entries@[ti] == te0,
        te0.etype == e.event_type,
        te1.etype == e.event_type,
        s1.entries@ == s0.entries@.update(ti, te1),
        day_map(te1.days@) == day_map(te0.days@).insert(
            e.date,
            (if day_map(te0.days@).dom().contains(e.date) {
                day_map(te0.days@)[e.date]
            } else {
                Seq::<EventDetails>::empty()
            }).push(e.details),
        ),
        te1.wf(),
    ensures
        s1.wf(),
        s1.as_map() == spec_add_map(m0, e),
{
    assert forall|i: int, j: int|
        0 <= i < j < s1.entries@.len() implies (#[trigger] s1.entries@[i]).etype != (
    #[trigger] s1.entries@[j]).etype by {
        assert(s1.entries@[i].etype == s0.entries@[i].etype);
        assert(s1.entries@[j].etype == s0.entries@[j].etype);
        assert(s0.entries@[i].etype != s0.entries@[j].etype);
    }
    assert forall|i: int| 0 <= i < s1.entries@.len() implies (#[trigger] s1.entries@[i]).wf() by {
        if i != ti {
            assert(s1.entries@[i] == s0.entries@[i]);
            assert(s0.entries@[i].wf());
        }
    }
    assert(s1.wf());
    lemma_type_index_is(s0, ti);
    lemma_type_index_is(s1, ti);
    assert forall|t: EventType| true implies spec_add_map(m0, e).dom().contains(t)
        == s1.as_map().dom().contains(t) by {
        if t != e.event_type {
            if s0.has_type(t) {
                let i = s0.type_index(t);
                assert(s0.entries@[i].etype == t);
                assert(i != ti);
                assert(s1.entries@[i].etype == t);
            }
            if s1.has_type(t) {
                let i = s1.type_index(t);
                assert(s1.entries@[i].etype == t);
                assert(i != ti);
                assert(s0.entries@[i].etype == t);
            }
        }
    }
    assert forall|t: EventType| s1.as_map().dom().contains(t) implies s1.as_map()[t]
        == spec_add_map(m0, e)[t] by {
        if t == e.event_type {
            assert(s1.as_map()[t] == day_map(te1.days@));
            assert(m0.dom().contains(e.event_type));
            assert(m0[e.event_type] == day_map(te0.days@));
        } else {
            let i = s1.type_index(t);
            assert(s1.entries@[i].etype == t);
            assert(i != ti);
            assert(s0.entries@[i].etype == t);
            lemma_type_index_is(s0, i);
            lemma_type_index_is(s1, i);
            assert(s1.entries@[i] == s0.entries@[i]);
        }
    }
    assert(s1.as_map() =~= spec_add_map(m0, e));
}

/// Folding a sequence of events into an abstraction, in order.
pub open spec fn spec_fold_events(
    m: Map<EventType, Map<Date, Seq<EventDetails>>>,
    es: Seq<Event>,
) -> Map<EventType, Map<Date, Seq<EventDetails>>>
    decreases es.len(),
{
    if es.len() == 0 {
        m
    } else {
        spec_fold_events(spec_add_map(m, es[0]), es.skip(1))
    }
}

/// Replay equivalence: folding a journal's events in order is the same as
/// adding them one by one, each step being one `spec_add_map`; so a rebuild
/// by replay and a directly maintained index agree.
pub proof fn lemma_fold_is_iterated_add(
    m: Map<EventType, Map<Date, Seq<EventDetails>>>,
    es: Seq<Event>,
)
    requires
        es.len() > 0,
    ensures
        spec_fold_events(m, es) == spec_add_map(spec_fold_events(m, es.drop_last()), es.last()),
    decreases es.len(),
{
    if es.len() == 1 {
        assert(es.drop_last() =~= Seq::<Event>::empty());
        assert(es.skip(1) =~= Seq::<Event>::empty());
        let m1 = spec_add_map(m, es[0]);
        assert(spec_fold_events(m, es) == spec_fold_events(m1, es.skip(1)));
        assert(spec_fold_events(m1, Seq::<Event>::empty()) == m1);
        assert(spec_fold_events(m, Seq::<Event>::empty()) == m);
        assert(es.last() == es[0]);
    } else {
        let tail = es.skip(1);
        let m1 = spec_add_map(m, es[0]);
        lemma_fold_is_iterated_add(m1, tail);
        assert(tail.drop_last() =~= es.drop_last().skip(1));
        assert(tail.last() == es.last());
        assert(es.drop_last()[0] == es[0]);
        assert(es.drop_last().len() > 0);
        assert(spec_fold_events(m, es.drop_last()) == spec_fold_events(
            m1,
            es.drop_last().skip(1),
        ));
        assert(spec_fold_events(m, es) == spec_fold_events(m1, tail));
        assert(spec_fold_events(m1, tail) == spec_add_map(
            spec_fold_events(m1, tail.drop_last()),
            tail.last(),
        ));
    }
}

/// The payload sequence one key accumulates: what the abstraction holds
/// under `(t, d)`, or empty when the key is absent.
pub open spec fn payloads_at(
    m: Map<EventType, Map<Date, Seq<EventDetails>>>,
    t: EventType,
    d: Date,
) -> Seq<EventDetails> {
    if m.dom().contains(t) && m[t].dom().contains(d) {
        m[t][d]
    } else {
        Seq::empty()
    }
}

/// Append semantics: events sharing one type and date, folded in order into
/// any starting abstraction, extend that key's sequence by exactly their
/// payloads, in order — no deduplication, no reordering.
pub proof fn lemma_append_semantics(
    m: Map<EventType, Map<Date, Seq<EventDetails>>>,
    es: Seq<Event>,
    t: EventType,
    d: Date,
)
    requires
        forall|i: int|
            0 <= i < es.len() ==> (#[trigger] es[i]).event_type == t && es[i].date == d,
    ensures
        payloads_at(spec_fold_events(m, es), t, d) == payloads_at(m, t, d) + es.map_values(
            |ev: Event| ev.details,
        ),
    decreases es.len(),
{
    if es.len() == 0 {
        assert(payloads_at(m, t, d) + es.map_values(|ev: Event| ev.details) =~= payloads_at(
            m,
            t,
            d,
        ));
    } else {
        let m1 = spec_add_map(m, es[0]);
        assert(payloads_at(m1, t, d) =~= payloads_at(m, t, d).push(es[0].details));
        lemma_append_semantics(m1, es.skip(1), t, d);
        assert(payloads_at(m, t, d).push(es[0].details) + es.skip(1).map_values(
            |ev: Event| ev.details,
        ) =~= payloads_at(m, t, d) + es.map_values(|ev: Event| ev.details));
    }
}

/// The same law from a fresh index: events sharing one type and date, added
/// in order to an empty index, leave exactly their payload sequence under
/// that key.
pub proof fn lemma_append_semantics_empty(es: Seq<Event>, t: EventType, d: Date)
    requires
        forall|i: int|
            0 <= i < es.len() ==> (#[trigger] es[i]).event_type == t && es[i].date == d,
    ensures
        payloads_at(
            spec_fold_events(Map::<EventType, Map<Date, Seq<EventDetails>>>::empty(), es),
            t,
            d,
        ) == es.map_values(|ev: Event| ev.details),
{
    let m0 = Map::<EventType, Map<Date, Seq<EventDetails>>>::empty();
    lemma_append_semantics(m0, es, t, d);
    assert(payloads_at(m0, t, d) =~= Seq::<EventDetails>::empty());
    assert(Seq::<EventDetails>::empty() + es.map_values(|ev: Event| ev.details) =~= es.map_values(
        |ev: Event| ev.details,
    ));
}

} // verus!
