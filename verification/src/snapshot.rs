//! The state-snapshot format: the whole index as one self-describing record,
//! event type to date to payload list. The deserializer only ever accepts a
//! state whose canonical rendering is exactly the given line, so a parsed
//! snapshot is trustworthy; anything else triggers the rebuild path.

use vstd::prelude::*;
use vstd::string::StrSliceExecFns;
use vstd::string::StringExecFns;
use crate::date::spec_render_date;
use crate::date::render_date;
use crate::date::parse_date_field;
use crate::date::lemma_date_parse_render;
use crate::event::EventDetails;
use crate::event::spec_type_name;
use crate::event::event_type_name;
use crate::event::name_to_type;
use crate::event::EventType;
use crate::event::details_match;
use crate::event::lemma_type_name_props;
use crate::event::lemma_name_to_type_inverts;
use crate::date::lemma_date_round_trip;
use crate::codec::spec_ser_details;
use crate::codec::lemma_matches_split;
use crate::codec::lemma_matches_chars;
use crate::codec::lemma_subrange_join;
use crate::codec::find_quote;
use crate::state::day_shapes_ok;
use crate::state::days_sorted;
use crate::state::date_key;
use crate::state::date_key_exec;
use crate::strutil::matches_at;
use crate::codec::serialize_details;
use crate::codec::parse_details_at;
use crate::state::DayEntry;
use crate::state::TypeEntry;
use crate::state::StateByEvent;
use crate::strutil::expect_lit;

verus! {

/// The payload list of one day, comma-separated.
pub open spec fn spec_ser_payloads(ds: Seq<EventDetails>) -> Seq<char>
    decreases ds.len(),
{
    if ds.len() == 0 {
        Seq::empty()
    } else if ds.len() == 1 {
        spec_ser_details(ds[0])
    } else {
        spec_ser_details(ds[0]) + ","@ + spec_ser_payloads(ds.skip(1))
    }
}

proof fn lemma_payloads_append(s: Seq<EventDetails>, x: EventDetails)
    ensures
        spec_ser_payloads(s.push(x)) == if s.len() == 0 {
            spec_ser_details(x)
        } else {
            spec_ser_payloads(s) + ","@ + spec_ser_details(x)
        },
    decreases s.len(),
{
    let p = s.push(x);
    if s.len() == 0 {
        assert(p.len() == 1);
        assert(p[0] == x);
    } else if s.len() == 1 {
        assert(p.skip(1) =~= seq![x]);
        assert(spec_ser_payloads(p.skip(1)) == spec_ser_details(x));
        assert(p[0] == s[0]);
    } else {
        assert(p.skip(1) =~= s.skip(1).push(x));
        lemma_payloads_append(s.skip(1), x);
        assert(p[0] == s[0]);
        assert(spec_ser_details(s[0]) + ","@ + (spec_ser_payloads(s.skip(1)) + ","@
            + spec_ser_details(x)) =~= (spec_ser_details(s[0]) + ","@ + spec_ser_payloads(
            s.skip(1),
        )) + ","@ + spec_ser_details(x));
    }
}

/// One day inside an entry: the quoted date, then its payload list.
pub open spec fn spec_ser_day(de: DayEntry) -> Seq<char> {
    "\""@ + spec_render_date(de.date) + "\":["@ + spec_ser_payloads(de.details@) + "]"@
}

/// The day list of one entry, comma-separated.
pub open spec fn spec_ser_days(days: Seq<DayEntry>) -> Seq<char>
    decreases days.len(),
{
    if days.len() == 0 {
        Seq::empty()
    } else if days.len() == 1 {
        spec_ser_day(days[0])
    } else {
        spec_ser_day(days[0]) + ","@ + spec_ser_days(days.skip(1))
    }
}

proof fn lemma_days_append(s: Seq<DayEntry>, x: DayEntry)
    ensures
        spec_ser_days(s.push(x)) == if s.len() == 0 {
            spec_ser_day(x)
        } else {
            spec_ser_days(s) + ","@ + spec_ser_day(x)
        },
    decreases s.len(),
{
    let p = s.push(x);
    if s.len() == 0 {
        assert(p.len() == 1);
        assert(p[0] == x);
    } else if s.len() == 1 {
        assert(p.skip(1) =~= seq![x]);
        assert(spec_ser_days(p.skip(1)) == spec_ser_day(x));
        assert(p[0] == s[0]);
    } else {
        assert(p.skip(1) =~= s.skip(1).push(x));
        lemma_days_append(s.skip(1), x);
        assert(p[0] == s[0]);
        assert(spec_ser_day(s[0]) + ","@ + (spec_ser_days(s.skip(1)) + ","@ + spec_ser_day(x))
            =~= (spec_ser_day(s[0]) + ","@ + spec_ser_days(s.skip(1))) + ","@ + spec_ser_day(x));
    }
}

/// One type entry: the quoted type name, then its day map.
pub open spec fn spec_ser_entry(te: TypeEntry) -> Seq<char> {
    "\""@ + spec_type_name(te.etype) + "\":{"@ + spec_ser_days(te.days@) + "}"@
}

/// The entry list of the state, comma-separated.
pub open spec fn spec_ser_entries(entries: Seq<TypeEntry>) -> Seq<char>
    decreases entries.len(),
{
    if entries.len() == 0 {
        Seq::empty()
    } else if entries.len() == 1 {
        spec_ser_entry(entries[0])
    } else {
        spec_ser_entry(entries[0]) + ","@ + spec_ser_entries(entries.skip(1))
    }
}

proof fn lemma_entries_append(s: Seq<TypeEntry>, x: TypeEntry)
    ensures
        spec_ser_entries(s.push(x)) == if s.len() == 0 {
            spec_ser_entry(x)
        } else {
            spec_ser_entries(s) + ","@ + spec_ser_entry(x)
        },
    decreases s.len(),
{
    let p = s.push(x);
    if s.len() == 0 {
        assert(p.len() == 1);
        assert(p[0] == x);
    } else if s.len() == 1 {
        assert(p.skip(1) =~= seq![x]);
        assert(spec_ser_entries(p.skip(1)) == spec_ser_entry(x));
        assert(p[0] == s[0]);
    } else {
        assert(p.skip(1) =~= s.skip(1).push(x));
        lemma_entries_append(s.skip(1), x);
        assert(p[0] == s[0]);
        assert(spec_ser_entry(s[0]) + ","@ + (spec_ser_entries(s.skip(1)) + ","@
            + spec_ser_entry(x)) =~= (spec_ser_entry(s[0]) + ","@ + spec_ser_entries(s.skip(1)))
            + ","@ + spec_ser_entry(x));
    }
}

/// The canonical snapshot line of a whole state.
pub open spec fn spec_ser_state(st: StateByEvent) -> Seq<char> {
    "{"@ + spec_ser_entries(st.entries@) + "}"@
}

fn serialize_day(de: &DayEntry) -> (r: String)
    requires
        de.wf(),
    ensures
        r@ == spec_ser_day(*de),
{
    let mut r = String::from_str("\"");
    r.append(render_date(de.date).as_str());
    r.append("\":[");
    let mut k: usize = 0;
    while k < de.details.len()
        invariant
            0 <= k <= de.details@.len(),
            de.wf(),
            r@ == "\""@ + spec_render_date(de.date) + "\":["@ + spec_ser_payloads(
                de.details@.take(k as int),
            ),
        decreases de.details@.len() - k,
    {
        if k > 0 {
            r.append(",");
        }
        r.append(serialize_details(&de.details[k]).as_str());
        proof {
            reveal_strlit(",");
            assert(de.details@.take(k + 1) =~= de.details@.take(k as int).push(
                de.details@[k as int],
            ));
            lemma_payloads_append(de.details@.take(k as int), de.details@[k as int]);
            if k == 0 {
                assert(spec_ser_payloads(de.details@.take(0)) =~= Seq::<char>::empty());
            }
            assert(r@ =~= "\""@ + spec_render_date(de.date) + "\":["@ + spec_ser_payloads(
                de.details@.take(k + 1),
            ));
        }
        k = k + 1;
    }
    r.append("]");
    proof {
        assert(de.details@.take(de.details@.len() as int) =~= de.details@);
        assert(r@ =~= spec_ser_day(*de));
    }
    r
}

fn serialize_entry(te: &TypeEntry) -> (r: String)
    requires
        te.wf(),
    ensures
        r@ == spec_ser_entry(*te),
{
    let mut r = String::from_str("\"");
    r.append(event_type_name(te.etype));
    r.append("\":{");
    let mut k: usize = 0;
    while k < te.days.len()
        invariant
            0 <= k <= te.days@.len(),
            te.wf(),
            r@ == "\""@ + spec_type_name(te.etype) + "\":{"@ + spec_ser_days(
                te.days@.take(k as int),
            ),
        decreases te.days@.len() - k,
    {
        if k > 0 {
            r.append(",");
        }
        r.append(serialize_day(&te.days[k]).as_str());
        proof {
            reveal_strlit(",");
            assert(te.days@.take(k + 1) =~= te.days@.take(k as int).push(te.days@[k as int]));
            lemma_days_append(te.days@.take(k as int), te.days@[k as int]);
            if k == 0 {
                assert(spec_ser_days(te.days@.take(0)) =~= Seq::<char>::empty());
            }
            assert(r@ =~= "\""@ + spec_type_name(te.etype) + "\":{"@ + spec_ser_days(
                te.days@.take(k + 1),
            ));
        }
        k = k + 1;
    }
    r.append("}");
    proof {
        assert(te.days@.take(te.days@.len() as int) =~= te.days@);
        assert(r@ =~= spec_ser_entry(*te));
    }
    r
}

/// Renders the whole state as its canonical snapshot line.
pub fn serialize_state(st: &StateByEvent) -> (r: String)
    requires
        st.wf(),
    ensures
        r@ == spec_ser_state(*st),
{
    let mut r = String::from_str("{");
    let mut k: usize = 0;
    while k < st.entries.len()
        invariant
            0 <= k <= st.entries@.len(),
            st.wf(),
            r@ == "{"@ + spec_ser_entries(st.entries@.take(k as int)),
        decreases st.entries@.len() - k,
    {
        if k > 0 {
            r.append(",");
        }
        r.append(serialize_entry(&st.entries[k]).as_str());
        proof {
            reveal_strlit(",");
            assert(st.entries@.take(k + 1) =~= st.entries@.take(k as int).push(
                st.entries@[k as int],
            ));
            lemma_entries_append(st.entries@.take(k as int), st.entries@[k as int]);
            if k == 0 {
                assert(spec_ser_entries(st.entries@.take(0)) =~= Seq::<char>::empty());
            }
            assert(r@ =~= "{"@ + spec_ser_entries(st.entries@.take(k + 1)));
        }
        k = k + 1;
    }
    r.append("}");
    proof {
        assert(st.entries@.take(st.entries@.len() as int) =~= st.entries@);
        assert(r@ =~= spec_ser_state(*st));
    }
    r
}

/// Same date and payloads, field by field (entry containers aside).
pub open spec fn day_like(a: DayEntry, b: DayEntry) -> bool {
    a.date == b.date && a.details@ == b.details@
}

pub open spec fn days_like(a: Seq<DayEntry>, b: Seq<DayEntry>) -> bool {
    a.len() == b.len() && forall|k: int| 0 <= k < a.len() ==> day_like(#[trigger] a[k], b[k])
}

pub open spec fn te_like(a: TypeEntry, b: TypeEntry) -> bool {
    a.etype == b.etype && days_like(a.days@, b.days@)
}

pub open spec fn entries_like(a: Seq<TypeEntry>, b: Seq<TypeEntry>) -> bool {
    a.len() == b.len() && forall|k: int| 0 <= k < a.len() ==> te_like(#[trigger] a[k], b[k])
}

/// A nonempty payload list of type `t` is rendered at `i`, closed by `]`.
pub open spec fn payload_list_at(s: Seq<char>, i: int, t: EventType, ds: Seq<EventDetails>) -> bool {
    &&& ds.len() >= 1
    &&& (forall|k: int| 0 <= k < ds.len() ==> details_match(t, #[trigger] ds[k]))
    &&& matches_at(s, i, spec_ser_payloads(ds))
    &&& i + spec_ser_payloads(ds).len() < s.len()
    &&& s[i + spec_ser_payloads(ds).len()] == ']'
}

/// A nonempty day list of type `t` is rendered at `i`, closed by `}`.
pub open spec fn day_list_at(s: Seq<char>, i: int, t: EventType, days: Seq<DayEntry>) -> bool {
    &&& days.len() >= 1
    &&& (forall|k: int|
        0 <= k < days.len() ==> (#[trigger] days[k]).wf() && day_shapes_ok(t, days[k]))
    &&& matches_at(s, i, spec_ser_days(days))
    &&& i + spec_ser_days(days).len() < s.len()
    &&& s[i + spec_ser_days(days).len()] == '}'
}

/// A nonempty entry list is rendered at `i`, closed by `}`.
pub open spec fn entry_list_at(s: Seq<char>, i: int, entries: Seq<TypeEntry>) -> bool {
    &&& entries.len() >= 1
    &&& (forall|k: int| 0 <= k < entries.len() ==> (#[trigger] entries[k]).wf())
    &&& matches_at(s, i, spec_ser_entries(entries))
    &&& i + spec_ser_entries(entries).len() < s.len()
    &&& s[i + spec_ser_entries(entries).len()] == '}'
}

proof fn lemma_payloads_head(s: Seq<char>, i: int, ds: Seq<EventDetails>)
    requires
        0 <= i,
        ds.len() >= 1,
        matches_at(s, i, spec_ser_payloads(ds)),
    ensures
        matches_at(s, i, spec_ser_details(ds[0])),
        ds.len() == 1 ==> spec_ser_payloads(ds).len() == spec_ser_details(ds[0]).len(),
        ds.len() >= 2 ==> s[i + spec_ser_details(ds[0]).len()] == ',' && matches_at(
            s,
            i + spec_ser_details(ds[0]).len() + 1,
            spec_ser_payloads(ds.skip(1)),
        ) && spec_ser_payloads(ds).len() == spec_ser_details(ds[0]).len() + 1
            + spec_ser_payloads(ds.skip(1)).len(),
{
    if ds.len() >= 2 {
        let a = spec_ser_details(ds[0]);
        let rest = spec_ser_payloads(ds.skip(1));
        assert(spec_ser_payloads(ds) =~= a + (","@ + rest));
        lemma_matches_split(s, i, a, ","@ + rest);
        lemma_matches_split(s, i + a.len(), ","@, rest);
        reveal_strlit(",");
        assert(","@.len() == 1);
        lemma_matches_chars(s, i + a.len(), ","@);
        assert(","@[0] == ',');
        assert(s[i + a.len() + 0] == ","@[0]);
    }
}

proof fn lemma_days_head(s: Seq<char>, i: int, days: Seq<DayEntry>)
    requires
        0 <= i,
        days.len() >= 1,
        matches_at(s, i, spec_ser_days(days)),
    ensures
        matches_at(s, i, spec_ser_day(days[0])),
        days.len() == 1 ==> spec_ser_days(days).len() == spec_ser_day(days[0]).len(),
        days.len() >= 2 ==> s[i + spec_ser_day(days[0]).len()] == ',' && matches_at(
            s,
            i + spec_ser_day(days[0]).len() + 1,
            spec_ser_days(days.skip(1)),
        ) && spec_ser_days(days).len() == spec_ser_day(days[0]).len() + 1 + spec_ser_days(
            days.skip(1),
        ).len(),
{
    if days.len() >= 2 {
        let a = spec_ser_day(days[0]);
        let rest = spec_ser_days(days.skip(1));
        assert(spec_ser_days(days) =~= a + (","@ + rest));
        lemma_matches_split(s, i, a, ","@ + rest);
        lemma_matches_split(s, i + a.len(), ","@, rest);
        reveal_strlit(",");
        assert(","@.len() == 1);
        lemma_matches_chars(s, i + a.len(), ","@);
        assert(","@[0] == ',');
        assert(s[i + a.len() + 0] == ","@[0]);
    }
}

proof fn lemma_entries_head(s: Seq<char>, i: int, entries: Seq<TypeEntry>)
    requires
        0 <= i,
        entries.len() >= 1,
        matches_at(s, i, spec_ser_entries(entries)),
    ensures
        matches_at(s, i, spec_ser_entry(entries[0])),
        entries.len() == 1 ==> spec_ser_entries(entries).len() == spec_ser_entry(
            entries[0],
        ).len(),
        entries.len() >= 2 ==> s[i + spec_ser_entry(entries[0]).len()] == ',' && matches_at(
            s,
            i + spec_ser_entry(entries[0]).len() + 1,
            spec_ser_entries(entries.skip(1)),
        ) && spec_ser_entries(entries).len() == spec_ser_entry(entries[0]).len() + 1
            + spec_ser_entries(entries.skip(1)).len(),
{
    if entries.len() >= 2 {
        let a = spec_ser_entry(entries[0]);
        let rest = spec_ser_entries(entries.skip(1));
        assert(spec_ser_entries(entries) =~= a + (","@ + rest));
        lemma_matches_split(s, i, a, ","@ + rest);
        lemma_matches_split(s, i + a.len(), ","@, rest);
        reveal_strlit(",");
        assert(","@.len() == 1);
        lemma_matches_chars(s, i + a.len(), ","@);
        assert(","@[0] == ',');
        assert(s[i + a.len() + 0] == ","@[0]);
    }
}

proof fn lemma_day_layout(s: Seq<char>, i: int, de: DayEntry)
    requires
        0 <= i,
        de.wf(),
        matches_at(s, i, spec_ser_day(de)),
    ensures
        matches_at(s, i, "\""@),
        matches_at(s, i + "\""@.len(), spec_render_date(de.date)),
        matches_at(s, i + "\""@.len() as int + 10, "\":["@),
        matches_at(
            s,
            i + "\""@.len() as int + 10 + "\":["@.len(),
            spec_ser_payloads(de.details@),
        ),
        i + "\""@.len() as int + 10 + "\":["@.len() + spec_ser_payloads(de.details@).len()
            < s.len(),
        s[i + "\""@.len() as int + 10 + "\":["@.len() + spec_ser_payloads(de.details@).len()]
            == ']',
        spec_ser_day(de).len() == "\""@.len() as int + 10 + "\":["@.len() + spec_ser_payloads(
            de.details@,
        ).len() + "]"@.len(),
{
    let q = "\""@;
    let dt = spec_render_date(de.date);
    let b = "\":["@;
    let pj = spec_ser_payloads(de.details@);
    let c = "]"@;
    assert(dt.len() == 10);
    assert(spec_ser_day(de) =~= q + (dt + (b + (pj + c))));
    lemma_matches_split(s, i, q, dt + (b + (pj + c)));
    lemma_matches_split(s, i + q.len(), dt, b + (pj + c));
    lemma_matches_split(s, i + q.len() + dt.len(), b, pj + c);
    lemma_matches_split(s, i + q.len() + dt.len() + b.len(), pj, c);
    reveal_strlit("]");
    assert(c.len() == 1);
    lemma_matches_chars(s, i + q.len() + dt.len() + b.len() + pj.len(), c);
    assert(c[0] == ']');
    assert(s[i + q.len() + dt.len() + b.len() + pj.len() + 0] == c[0]);
}

proof fn lemma_entry_layout(s: Seq<char>, i: int, te: TypeEntry)
    requires
        0 <= i,
        matches_at(s, i, spec_ser_entry(te)),
    ensures
        matches_at(s, i, "\""@),
        matches_at(s, i + "\""@.len(), spec_type_name(te.etype)),
        forall|k: int|
            i + "\""@.len() <= k < i + "\""@.len() + spec_type_name(te.etype).len() ==> s[k]
                != '"',
        i + "\""@.len() as int + spec_type_name(te.etype).len() < s.len(),
        s[i + "\""@.len() as int + spec_type_name(te.etype).len()] == '"',
        matches_at(s, i + "\""@.len() as int + spec_type_name(te.etype).len(), "\":{"@),
        matches_at(
            s,
            i + "\""@.len() as int + spec_type_name(te.etype).len() + "\":{"@.len(),
            spec_ser_days(te.days@),
        ),
        i + "\""@.len() as int + spec_type_name(te.etype).len() + "\":{"@.len()
            + spec_ser_days(te.days@).len() < s.len(),
        s[i + "\""@.len() as int + spec_type_name(te.etype).len() + "\":{"@.len()
            + spec_ser_days(te.days@).len()] == '}',
        spec_ser_entry(te).len() == "\""@.len() as int + spec_type_name(te.etype).len()
            + "\":{"@.len() + spec_ser_days(te.days@).len() + "}"@.len(),
{
    let q = "\""@;
    let nm = spec_type_name(te.etype);
    let b = "\":{"@;
    let dj = spec_ser_days(te.days@);
    let c = "}"@;
    assert(spec_ser_entry(te) =~= q + (nm + (b + (dj + c))));
    lemma_matches_split(s, i, q, nm + (b + (dj + c)));
    lemma_matches_split(s, i + q.len(), nm, b + (dj + c));
    lemma_matches_split(s, i + q.len() + nm.len(), b, dj + c);
    lemma_matches_split(s, i + q.len() + nm.len() + b.len(), dj, c);
    lemma_type_name_props(te.etype);
    lemma_matches_chars(s, i + q.len(), nm);
    assert forall|k: int| i + q.len() <= k < i + q.len() + nm.len() implies s[k] != '"' by {
        assert(s[i + q.len() + (k - i - q.len())] == nm[k - i - q.len()]);
    }
    reveal_strlit("\":{");
    assert(b.len() == 3);
    lemma_matches_chars(s, i + q.len() + nm.len(), b);
    assert(b[0] == '"');
    assert(s[i + q.len() + nm.len() + 0] == b[0]);
    reveal_strlit("}");
    assert(c.len() == 1);
    lemma_matches_chars(s, i + q.len() + nm.len() + b.len() + dj.len(), c);
    assert(c[0] == '}');
    assert(s[i + q.len() + nm.len() + b.len() + dj.len() + 0] == c[0]);
}

/// Reads the nonempty payload list at `i`, exactly when one of type `t`,
/// closed by `]`, stands there.
#[verifier::rlimit(100)]
#[verifier::spinoff_prover]
fn parse_payloads_at(s: &str, i: usize, t: EventType) -> (r: Option<(Vec<EventDetails>, usize)>)
    requires
        i <= s@.len(),
    ensures
        r is Some ==> (i <= r.unwrap().1 <= s@.len() && r.unwrap().0@.len() >= 1 && (forall|
            k: int,
        |
            0 <= k < r.unwrap().0@.len() ==> details_match(t, #[trigger] r.unwrap().0@[k]))
            && s@.subrange(i as int, r.unwrap().1 as int) == spec_ser_payloads(r.unwrap().0@)),
        forall|ds0: Seq<EventDetails>|
            #[trigger] payload_list_at(s@, i as int, t, ds0) ==> r is Some && r.unwrap().0@ == ds0
                && r.unwrap().1 == i + spec_ser_payloads(ds0).len(),
    decreases s@.len() - i,
{
    let n = s.unicode_len();
    let (d0, j) = match parse_details_at(s, i, t) {
        None => {
            proof {
                assert forall|ds0: Seq<EventDetails>| !payload_list_at(
                    s@,
                    i as int,
                    t,
                    ds0,
                ) by {
                    if payload_list_at(s@, i as int, t, ds0) {
                        lemma_payloads_head(s@, i as int, ds0);
                    }
                }
            }
            return None;
        },
        Some(x) => x,
    };
    if j < n && s.get_char(j) == ',' {
        let (mut ds, j2) = match parse_payloads_at(s, j + 1, t) {
            None => {
                proof {
                    assert forall|ds0: Seq<EventDetails>| !payload_list_at(
                        s@,
                        i as int,
                        t,
                        ds0,
                    ) by {
                        if payload_list_at(s@, i as int, t, ds0) {
                            lemma_payloads_head(s@, i as int, ds0);
                            if ds0.len() >= 2 {
                                assert(payload_list_at(s@, j + 1, t, ds0.skip(1)));
                            }
                        }
                    }
                }
                return None;
            },
            Some(x) => x,
        };
        let ghost pre = ds@;
        ds.insert(0, d0);
        proof {
            assert(ds@ == pre.insert(0, d0));
            assert(ds@.skip(1) =~= pre);
            assert(ds@ =~= seq![d0] + pre);
            assert(ds@[0] == d0);
            lemma_subrange_join(s@, i as int, j as int, j + 1);
            lemma_subrange_join(s@, i as int, j + 1, j2 as int);
            reveal_strlit(",");
            assert(s@.subrange(j as int, j + 1)[0] == s@[j as int]);
            assert(s@.subrange(j as int, j + 1) =~= ","@);
            assert(spec_ser_payloads(ds@) == spec_ser_details(d0) + ","@ + spec_ser_payloads(
                ds@.skip(1),
            ));
            assert(s@.subrange(i as int, j2 as int) =~= spec_ser_payloads(ds@));
            assert forall|ds0: Seq<EventDetails>|
                #[trigger] payload_list_at(s@, i as int, t, ds0) implies (ds@ == ds0 && j2 == i
                + spec_ser_payloads(ds0).len()) by {
                lemma_payloads_head(s@, i as int, ds0);
                assert(d0 == ds0[0]);
                if ds0.len() == 1 {
                    assert(s@[j as int] == ']');
                } else {
                    assert(payload_list_at(s@, j + 1, t, ds0.skip(1)));
                    assert(ds@.skip(1) == ds0.skip(1));
                    assert(ds@ =~= ds0);
                }
            }
        }
        Some((ds, j2))
    } else {
        let mut v: Vec<EventDetails> = Vec::new();
        v.push(d0);
        proof {
            assert(v@ =~= seq![d0]);
            assert(spec_ser_payloads(v@) == spec_ser_details(d0));
            assert forall|ds0: Seq<EventDetails>|
                #[trigger] payload_list_at(s@, i as int, t, ds0) implies (v@ == ds0 && j == i
                + spec_ser_payloads(ds0).len()) by {
                lemma_payloads_head(s@, i as int, ds0);
                assert(d0 == ds0[0]);
                if ds0.len() >= 2 {
                    assert(j < s@.len());
                    assert(s@[j as int] == ',');
                }
                assert(ds0 =~= seq![d0]);
            }
        }
        Some((v, j))
    }
}

/// Reads one day — quoted date, then its payload list — exactly when one
/// stands at `i`.
#[verifier::rlimit(100)]
#[verifier::spinoff_prover]
fn parse_one_day(s: &str, i: usize, t: EventType) -> (r: Option<(DayEntry, usize)>)
    requires
        i <= s@.len(),
    ensures
        r is Some ==> (i <= r.unwrap().1 <= s@.len() && r.unwrap().0.wf() && day_shapes_ok(
            t,
            r.unwrap().0,
        ) && s@.subrange(i as int, r.unwrap().1 as int) == spec_ser_day(r.unwrap().0)),
        forall|de0: DayEntry|
            de0.wf() && day_shapes_ok(t, de0) && #[trigger] matches_at(s@, i as int, spec_ser_day(de0))
                ==> r is Some && day_like(r.unwrap().0, de0) && r.unwrap().1 == i + spec_ser_day(
                de0,
            ).len(),
{
    let n = s.unicode_len();
    let i1 = match expect_lit(s, i, "\"") {
        None => {
            proof {
                assert forall|de0: DayEntry| !(de0.wf() && day_shapes_ok(t, de0) && matches_at(
                    s@,
                    i as int,
                    spec_ser_day(de0),
                )) by {
                    if de0.wf() && day_shapes_ok(t, de0) && matches_at(
                        s@,
                        i as int,
                        spec_ser_day(de0),
                    ) {
                        lemma_day_layout(s@, i as int, de0);
                    }
                }
            }
            return None;
        },
        Some(x) => x,
    };
    if n - i1 < 10 {
        proof {
            assert forall|de0: DayEntry| !(de0.wf() && day_shapes_ok(t, de0) && matches_at(
                s@,
                i as int,
                spec_ser_day(de0),
            )) by {
                if de0.wf() && day_shapes_ok(t, de0) && matches_at(
                    s@,
                    i as int,
                    spec_ser_day(de0),
                ) {
                    lemma_day_layout(s@, i as int, de0);
                }
            }
        }
        return None;
    }
    let dsub = s.substring_char(i1, i1 + 10);
    let date = match parse_date_field(dsub) {
        None => {
            proof {
                assert forall|de0: DayEntry| !(de0.wf() && day_shapes_ok(t, de0) && matches_at(
                    s@,
                    i as int,
                    spec_ser_day(de0),
                )) by {
                    if de0.wf() && day_shapes_ok(t, de0) && matches_at(
                        s@,
                        i as int,
                        spec_ser_day(de0),
                    ) {
                        lemma_day_layout(s@, i as int, de0);
                        assert(dsub@ == spec_render_date(de0.date));
                        lemma_date_round_trip(de0.date);
                    }
                }
            }
            return None;
        },
        Some(x) => x,
    };
    let i2 = match expect_lit(s, i1 + 10, "\":[") {
        None => {
            proof {
                assert forall|de0: DayEntry| !(de0.wf() && day_shapes_ok(t, de0) && matches_at(
                    s@,
                    i as int,
                    spec_ser_day(de0),
                )) by {
                    if de0.wf() && day_shapes_ok(t, de0) && matches_at(
                        s@,
                        i as int,
                        spec_ser_day(de0),
                    ) {
                        lemma_day_layout(s@, i as int, de0);
                    }
                }
            }
            return None;
        },
        Some(x) => x,
    };
    let (ds, j3) = match parse_payloads_at(s, i2, t) {
        None => {
            proof {
                assert forall|de0: DayEntry| !(de0.wf() && day_shapes_ok(t, de0) && matches_at(
                    s@,
                    i as int,
                    spec_ser_day(de0),
                )) by {
                    if de0.wf() && day_shapes_ok(t, de0) && matches_at(
                        s@,
                        i as int,
                        spec_ser_day(de0),
                    ) {
                        lemma_day_layout(s@, i as int, de0);
                        assert(payload_list_at(s@, i2 as int, t, de0.details@));
                    }
                }
            }
            return None;
        },
        Some(x) => x,
    };
    let j = match expect_lit(s, j3, "]") {
        None => {
            proof {
                reveal_strlit("]");
                assert forall|de0: DayEntry| !(de0.wf() && day_shapes_ok(t, de0) && matches_at(
                    s@,
                    i as int,
                    spec_ser_day(de0),
                )) by {
                    if de0.wf() && day_shapes_ok(t, de0) && matches_at(
                        s@,
                        i as int,
                        spec_ser_day(de0),
                    ) {
                        lemma_day_layout(s@, i as int, de0);
                        assert(payload_list_at(s@, i2 as int, t, de0.details@));
                        assert(j3 == i2 + spec_ser_payloads(de0.details@).len());
                        assert(s@[j3 as int] == ']');
                        assert(s@.subrange(j3 as int, j3 + 1) =~= "]"@);
                    }
                }
            }
            return None;
        },
        Some(x) => x,
    };
    let de = DayEntry { date, details: ds };
    proof {
        lemma_date_parse_render(dsub@);
        assert(de.wf());
        assert(day_shapes_ok(t, de));
        lemma_subrange_join(s@, i as int, i1 as int, i1 + 10);
        lemma_subrange_join(s@, i as int, i1 + 10, i2 as int);
        lemma_subrange_join(s@, i as int, i2 as int, j3 as int);
        lemma_subrange_join(s@, i as int, j3 as int, j as int);
        assert(s@.subrange(i as int, i1 as int) =~= "\""@);
        assert(s@.subrange(i1 as int, i1 + 10) == dsub@);
        assert(s@.subrange(i1 + 10, i2 as int) =~= "\":["@);
        assert(s@.subrange(j3 as int, j as int) =~= "]"@);
        assert(s@.subrange(i as int, j as int) =~= spec_ser_day(de));
        assert forall|de0: DayEntry|
            de0.wf() && day_shapes_ok(t, de0) && #[trigger] matches_at(
                s@,
                i as int,
                spec_ser_day(de0),
            ) implies (day_like(de, de0) && j == i + spec_ser_day(de0).len()) by {
            lemma_day_layout(s@, i as int, de0);
            assert(dsub@ == spec_render_date(de0.date));
            lemma_date_round_trip(de0.date);
            assert(date == de0.date);
            assert(payload_list_at(s@, i2 as int, t, de0.details@));
            assert(ds@ == de0.details@);
        }
    }
    Some((de, j))
}

/// Reads the nonempty day list at `i`, exactly when one of type `t`, closed
/// by `}`, stands there.
#[verifier::rlimit(100)]
#[verifier::spinoff_prover]
fn parse_days_at(s: &str, i: usize, t: EventType) -> (r: Option<(Vec<DayEntry>, usize)>)
    requires
        i <= s@.len(),
    ensures
        r is Some ==> (i <= r.unwrap().1 <= s@.len() && r.unwrap().0@.len() >= 1 && (forall|
            k: int,
        |
            0 <= k < r.unwrap().0@.len() ==> (#[trigger] r.unwrap().0@[k]).wf() && day_shapes_ok(
                t,
                r.unwrap().0@[k],
            )) && s@.subrange(i as int, r.unwrap().1 as int) == spec_ser_days(r.unwrap().0@)),
        forall|days0: Seq<DayEntry>|
            #[trigger] day_list_at(s@, i as int, t, days0) ==> r is Some && days_like(r.unwrap().0@, days0)
                && r.unwrap().1 == i + spec_ser_days(days0).len(),
    decreases s@.len() - i,
{
    let n = s.unicode_len();
    let (d0, j) = match parse_one_day(s, i, t) {
        None => {
            proof {
                assert forall|days0: Seq<DayEntry>| !day_list_at(s@, i as int, t, days0) by {
                    if day_list_at(s@, i as int, t, days0) {
                        lemma_days_head(s@, i as int, days0);
                    }
                }
            }
            return None;
        },
        Some(x) => x,
    };
    if j < n && s.get_char(j) == ',' {
        let (mut days, j2) = match parse_days_at(s, j + 1, t) {
            None => {
                proof {
                    assert forall|days0: Seq<DayEntry>| !day_list_at(s@, i as int, t, days0) by {
                        if day_list_at(s@, i as int, t, days0) {
                            lemma_days_head(s@, i as int, days0);
                            if days0.len() >= 2 {
                                assert(day_list_at(s@, j + 1, t, days0.skip(1)));
                            }
                        }
                    }
                }
                return None;
            },
            Some(x) => x,
        };
        let ghost pre = days@;
        days.insert(0, d0);
        proof {
            assert(days@ == pre.insert(0, d0));
            assert(days@.skip(1) =~= pre);
            assert(days@ =~= seq![d0] + pre);
            assert(days@[0] == d0);
            lemma_subrange_join(s@, i as int, j as int, j + 1);
            lemma_subrange_join(s@, i as int, j + 1, j2 as int);
            reveal_strlit(",");
            assert(s@.subrange(j as int, j + 1)[0] == s@[j as int]);
            assert(s@.subrange(j as int, j + 1) =~= ","@);
            assert(spec_ser_days(days@) == spec_ser_day(d0) + ","@ + spec_ser_days(
                days@.skip(1),
            ));
            assert(s@.subrange(i as int, j2 as int) =~= spec_ser_days(days@));
            assert forall|days0: Seq<DayEntry>|
                #[trigger] day_list_at(s@, i as int, t, days0) implies (days_like(days@, days0) && j2 == i
                + spec_ser_days(days0).len()) by {
                lemma_days_head(s@, i as int, days0);
                assert(day_like(d0, days0[0]));
                if days0.len() == 1 {
                    assert(s@[j as int] == '}');
                } else {
                    assert(day_list_at(s@, j + 1, t, days0.skip(1)));
                    assert(days_like(days@.skip(1), days0.skip(1)));
                    assert forall|k: int| 0 <= k < days@.len() implies day_like(
                        #[trigger] days@[k],
                        days0[k],
                    ) by {
                        if k > 0 {
                            assert(days@[k] == days@.skip(1)[k - 1]);
                            assert(day_like(days@.skip(1)[k - 1], days0.skip(1)[k - 1]));
                        }
                    }
                }
            }
        }
        Some((days, j2))
    } else {
        let mut v: Vec<DayEntry> = Vec::new();
        v.push(d0);
        proof {
            assert(v@ =~= seq![d0]);
            assert(spec_ser_days(v@) == spec_ser_day(d0));
            assert forall|days0: Seq<DayEntry>|
                #[trigger] day_list_at(s@, i as int, t, days0) implies (days_like(v@, days0) && j == i
                + spec_ser_days(days0).len()) by {
                lemma_days_head(s@, i as int, days0);
                assert(day_like(d0, days0[0]));
                if days0.len() >= 2 {
                    assert(j < s@.len());
                    assert(s@[j as int] == ',');
                }
            }
        }
        Some((v, j))
    }
}
/// Reads one type entry — quoted name, then its day map — exactly when one
/// stands at `i`.
#[verifier::rlimit(100)]
#[verifier::spinoff_prover]
fn parse_one_entry(s: &str, i: usize) -> (r: Option<(TypeEntry, usize)>)
    requires
        i <= s@.len(),
    ensures
        r is Some ==> (i <= r.unwrap().1 <= s@.len() && r.unwrap().0.days@.len() >= 1 && (forall|
            k: int,
        |
            0 <= k < r.unwrap().0.days@.len() ==> (#[trigger] r.unwrap().0.days@[k]).wf()
                && day_shapes_ok(r.unwrap().0.etype, r.unwrap().0.days@[k])) && s@.subrange(
            i as int,
            r.unwrap().1 as int,
        ) == spec_ser_entry(r.unwrap().0)),
        forall|te0: TypeEntry|
            te0.wf() && #[trigger] matches_at(s@, i as int, spec_ser_entry(te0)) ==> r is Some && te_like(
                r.unwrap().0,
                te0,
            ) && r.unwrap().1 == i + spec_ser_entry(te0).len(),
{
    let n = s.unicode_len();
    let i1 = match expect_lit(s, i, "\"") {
        None => {
            proof {
                assert forall|te0: TypeEntry| !(te0.wf() && matches_at(
                    s@,
                    i as int,
                    spec_ser_entry(te0),
                )) by {
                    if te0.wf() && matches_at(s@, i as int, spec_ser_entry(te0)) {
                        lemma_entry_layout(s@, i as int, te0);
                    }
                }
            }
            return None;
        },
        Some(x) => x,
    };
    let q = match find_quote(s, i1) {
        None => {
            proof {
                assert forall|te0: TypeEntry| !(te0.wf() && matches_at(
                    s@,
                    i as int,
                    spec_ser_entry(te0),
                )) by {
                    if te0.wf() && matches_at(s@, i as int, spec_ser_entry(te0)) {
                        lemma_entry_layout(s@, i as int, te0);
                        assert(s@[i1 + spec_type_name(te0.etype).len()] == '"');
                    }
                }
            }
            return None;
        },
        Some(x) => x,
    };
    proof {
        assert forall|te0: TypeEntry|
            te0.wf() && #[trigger] matches_at(s@, i as int, spec_ser_entry(te0)) implies (q == i1
            + spec_type_name(te0.etype).len() && s@.subrange(i1 as int, q as int)
            == spec_type_name(te0.etype)) by {
            lemma_entry_layout(s@, i as int, te0);
            let nl = spec_type_name(te0.etype).len();
            if q < i1 + nl {
                assert(s@[q as int] != '"');
            }
            if q > i1 + nl {
                assert(s@[i1 + nl] == '"');
            }
        }
    }
    let tname = s.substring_char(i1, q);
    let t = match name_to_type(tname) {
        None => {
            proof {
                assert forall|te0: TypeEntry| !(te0.wf() && matches_at(
                    s@,
                    i as int,
                    spec_ser_entry(te0),
                )) by {
                    if te0.wf() && matches_at(s@, i as int, spec_ser_entry(te0)) {
                        lemma_type_name_props(te0.etype);
                        assert(tname@ == spec_type_name(te0.etype));
                    }
                }
            }
            return None;
        },
        Some(x) => x,
    };
    proof {
        lemma_name_to_type_inverts(tname@);
        assert(tname@ == spec_type_name(t));
        assert forall|te0: TypeEntry|
            te0.wf() && #[trigger] matches_at(s@, i as int, spec_ser_entry(te0)) implies te0.etype == t by {
            lemma_type_name_props(te0.etype);
            assert(tname@ == spec_type_name(te0.etype));
        }
    }
    let i2 = match expect_lit(s, q, "\":{") {
        None => {
            proof {
                assert forall|te0: TypeEntry| !(te0.wf() && matches_at(
                    s@,
                    i as int,
                    spec_ser_entry(te0),
                )) by {
                    if te0.wf() && matches_at(s@, i as int, spec_ser_entry(te0)) {
                        lemma_entry_layout(s@, i as int, te0);
                    }
                }
            }
            return None;
        },
        Some(x) => x,
    };
    let (days, j3) = match parse_days_at(s, i2, t) {
        None => {
            proof {
                assert forall|te0: TypeEntry| !(te0.wf() && matches_at(
                    s@,
                    i as int,
                    spec_ser_entry(te0),
                )) by {
                    if te0.wf() && matches_at(s@, i as int, spec_ser_entry(te0)) {
                        lemma_entry_layout(s@, i as int, te0);
                        assert(day_list_at(s@, i2 as int, t, te0.days@));
                    }
                }
            }
            return None;
        },
        Some(x) => x,
    };
    let j = match expect_lit(s, j3, "}") {
        None => {
            proof {
                reveal_strlit("}");
                assert forall|te0: TypeEntry| !(te0.wf() && matches_at(
                    s@,
                    i as int,
                    spec_ser_entry(te0),
                )) by {
                    if te0.wf() && matches_at(s@, i as int, spec_ser_entry(te0)) {
                        lemma_entry_layout(s@, i as int, te0);
                        assert(day_list_at(s@, i2 as int, t, te0.days@));
                        assert(j3 == i2 + spec_ser_days(te0.days@).len());
                        assert(s@[j3 as int] == '}');
                        assert(s@.subrange(j3 as int, j3 + 1) =~= "}"@);
                    }
                }
            }
            return None;
        },
        Some(x) => x,
    };
    let te = TypeEntry { etype: t, days };
    proof {
        lemma_subrange_join(s@, i as int, i1 as int, q as int);
        lemma_subrange_join(s@, i as int, q as int, i2 as int);
        lemma_subrange_join(s@, i as int, i2 as int, j3 as int);
        lemma_subrange_join(s@, i as int, j3 as int, j as int);
        assert(s@.subrange(i as int, i1 as int) =~= "\""@);
        assert(s@.subrange(i1 as int, q as int) == spec_type_name(t));
        assert(s@.subrange(q as int, i2 as int) =~= "\":{"@);
        assert(s@.subrange(j3 as int, j as int) =~= "}"@);
        assert(s@.subrange(i as int, j as int) =~= spec_ser_entry(te));
        assert forall|te0: TypeEntry|
            te0.wf() && #[trigger] matches_at(s@, i as int, spec_ser_entry(te0)) implies (te_like(te, te0)
            && j == i + spec_ser_entry(te0).len()) by {
            lemma_entry_layout(s@, i as int, te0);
            assert(te0.etype == t);
            assert(day_list_at(s@, i2 as int, t, te0.days@));
            assert(days_like(days@, te0.days@));
        }
    }
    Some((te, j))
}

/// Reads the nonempty entry list at `i`, exactly when one, closed by `}`,
/// stands there.
#[verifier::rlimit(100)]
#[verifier::spinoff_prover]
fn parse_entries_at(s: &str, i: usize) -> (r: Option<(Vec<TypeEntry>, usize)>)
    requires
        i <= s@.len(),
    ensures
        r is Some ==> (i <= r.unwrap().1 <= s@.len() && r.unwrap().0@.len() >= 1 && (forall|
            k: int,
        |
            0 <= k < r.unwrap().0@.len() ==> (#[trigger] r.unwrap().0@[k]).days@.len() >= 1
                && (forall|d: int|
                0 <= d < r.unwrap().0@[k].days@.len() ==> (#[trigger] r.unwrap().0@[k].days@[d]).wf()
                    && day_shapes_ok(r.unwrap().0@[k].etype, r.unwrap().0@[k].days@[d])))
            && s@.subrange(i as int, r.unwrap().1 as int) == spec_ser_entries(r.unwrap().0@)),
        forall|entries0: Seq<TypeEntry>|
            #[trigger] entry_list_at(s@, i as int, entries0) ==> r is Some && entries_like(
                r.unwrap().0@,
                entries0,
            ) && r.unwrap().1 == i + spec_ser_entries(entries0).len(),
    decreases s@.len() - i,
{
    let n = s.unicode_len();
    let (e0, j) = match parse_one_entry(s, i) {
        None => {
            proof {
                assert forall|entries0: Seq<TypeEntry>| !entry_list_at(s@, i as int, entries0) by {
                    if entry_list_at(s@, i as int, entries0) {
                        lemma_entries_head(s@, i as int, entries0);
                    }
                }
            }
            return None;
        },
        Some(x) => x,
    };
    if j < n && s.get_char(j) == ',' {
        let (mut entries, j2) = match parse_entries_at(s, j + 1) {
            None => {
                proof {
                    assert forall|entries0: Seq<TypeEntry>| !entry_list_at(
                        s@,
                        i as int,
                        entries0,
                    ) by {
                        if entry_list_at(s@, i as int, entries0) {
                            lemma_entries_head(s@, i as int, entries0);
                            if entries0.len() >= 2 {
                                assert(entry_list_at(s@, j + 1, entries0.skip(1)));
                            }
                        }
                    }
                }
                return None;
            },
            Some(x) => x,
        };
        let ghost pre = entries@;
        entries.insert(0, e0);
        proof {
            assert(entries@ == pre.insert(0, e0));
            assert(entries@.skip(1) =~= pre);
            assert(entries@ =~= seq![e0] + pre);
            assert(entries@[0] == e0);
            lemma_subrange_join(s@, i as int, j as int, j + 1);
            lemma_subrange_join(s@, i as int, j + 1, j2 as int);
            reveal_strlit(",");
            assert(s@.subrange(j as int, j + 1)[0] == s@[j as int]);
            assert(s@.subrange(j as int, j + 1) =~= ","@);
            assert(spec_ser_entries(entries@) == spec_ser_entry(e0) + ","@ + spec_ser_entries(
                entries@.skip(1),
            ));
            assert(s@.subrange(i as int, j2 as int) =~= spec_ser_entries(entries@));
            assert forall|entries0: Seq<TypeEntry>|
                #[trigger] entry_list_at(s@, i as int, entries0) implies (entries_like(entries@, entries0)
                && j2 == i + spec_ser_entries(entries0).len()) by {
                lemma_entries_head(s@, i as int, entries0);
                assert(te_like(e0, entries0[0]));
                if entries0.len() == 1 {
                    assert(s@[j as int] == '}');
                } else {
                    assert(entry_list_at(s@, j + 1, entries0.skip(1)));
                    assert(entries_like(entries@.skip(1), entries0.skip(1)));
                    assert forall|k: int| 0 <= k < entries@.len() implies te_like(
                        #[trigger] entries@[k],
                        entries0[k],
                    ) by {
                        if k > 0 {
                            assert(entries@[k] == entries@.skip(1)[k - 1]);
                            assert(te_like(entries@.skip(1)[k - 1], entries0.skip(1)[k - 1]));
                        }
                    }
                }
            }
        }
        Some((entries, j2))
    } else {
        let mut v: Vec<TypeEntry> = Vec::new();
        v.push(e0);
        proof {
            assert(v@ =~= seq![e0]);
            assert(spec_ser_entries(v@) == spec_ser_entry(e0));
            assert forall|entries0: Seq<TypeEntry>|
                #[trigger] entry_list_at(s@, i as int, entries0) implies (entries_like(v@, entries0) && j == i
                + spec_ser_entries(entries0).len()) by {
                lemma_entries_head(s@, i as int, entries0);
                assert(te_like(e0, entries0[0]));
                if entries0.len() >= 2 {
                    assert(j < s@.len());
                    assert(s@[j as int] == ',');
                }
            }
        }
        Some((v, j))
    }
}

proof fn lemma_sorted_from_adjacent(days: Seq<DayEntry>, a: int, b: int)
    requires
        forall|d: int|
            0 <= d < days.len() - 1 ==> date_key((#[trigger] days[d]).date) < date_key(
                days[d + 1].date,
            ),
        0 <= a < b < days.len(),
    ensures
        date_key(days[a].date) < date_key(days[b].date),
    decreases b - a,
{
    if b == a + 1 {
        assert(date_key(days[a].date) < date_key(days[a + 1].date));
    } else {
        lemma_sorted_from_adjacent(days, a, b - 1);
        assert(date_key(days[b - 1].date) < date_key(days[b - 1 + 1].date));
    }
}

/// Checks the two invariants a bare parse cannot guarantee: distinct event
/// types across entries, and strictly date-sorted days within each entry.
fn check_entries(entries: &Vec<TypeEntry>) -> (ok: bool)
    ensures
        ok == ((forall|a: int, b: int|
            0 <= a < b < entries@.len() ==> (#[trigger] entries@[a]).etype != (
            #[trigger] entries@[b]).etype) && (forall|k: int|
            0 <= k < entries@.len() ==> days_sorted((#[trigger] entries@[k]).days@))),
{
    let mut a: usize = 0;
    while a < entries.len()
        invariant
            0 <= a <= entries@.len(),
            forall|x: int, y: int|
                0 <= x < y < entries@.len() && x < a ==> (#[trigger] entries@[x]).etype != (
                #[trigger] entries@[y]).etype,
        decreases entries@.len() - a,
    {
        let mut b: usize = a + 1;
        while b < entries.len()
            invariant
                0 <= a < b <= entries@.len() || (a < entries@.len() && b == a + 1),
                a < entries@.len(),
                a + 1 <= b,
                forall|y: int| a < y < b ==> (#[trigger] entries@[y]).etype != entries@[a as int].etype,
            decreases entries@.len() - b,
        {
            if entries[b].etype == entries[a].etype {
                return false;
            }
            b = b + 1;
        }
        a = a + 1;
    }
    let mut k: usize = 0;
    while k < entries.len()
        invariant
            0 <= k <= entries@.len(),
            forall|a2: int, b2: int|
                0 <= a2 < b2 < entries@.len() ==> (#[trigger] entries@[a2]).etype != (
                #[trigger] entries@[b2]).etype,
            forall|x: int| 0 <= x < k ==> days_sorted((#[trigger] entries@[x]).days@),
        decreases entries@.len() - k,
    {
        let days = &entries[k].days;
        if days.len() > 0 {
            let mut d: usize = 0;
            while d < days.len() - 1
                invariant
                    days@ == entries@[k as int].days@,
                    0 <= k < entries@.len(),
                    days@.len() >= 1,
                    0 <= d <= days@.len() - 1,
                    forall|x: int|
                        0 <= x < d ==> date_key((#[trigger] days@[x]).date) < date_key(
                            days@[x + 1].date,
                        ),
                decreases days@.len() - d,
            {
                if date_key_exec(days[d].date) >= date_key_exec(days[d + 1].date) {
                    proof {
                        assert(!days_sorted(entries@[k as int].days@));
                    }
                    return false;
                }
                d = d + 1;
            }
            proof {
                assert forall|a2: int, b2: int|
                    0 <= a2 < b2 < days@.len() implies date_key(#[trigger] days@[a2].date)
                    < date_key(#[trigger] days@[b2].date) by {
                    lemma_sorted_from_adjacent(days@, a2, b2);
                }
            }
        }
        proof {
            assert(days_sorted(entries@[k as int].days@));
        }
        k = k + 1;
    }
    true
}

/// Reads a snapshot line back. It accepts exactly the canonical renderings
/// of well-formed states: any line equal to `spec_ser_state(st)` for a
/// well-formed `st` is accepted, and whatever is accepted re-renders to the
/// very same line. Anything else falls to `None`, the corrupt-snapshot
/// signal that sends callers to the rebuild path.
#[verifier::rlimit(100)]
#[verifier::spinoff_prover]
pub fn deserialize_state(line: &str) -> (r: Option<StateByEvent>)
    ensures
        r is Some ==> r.unwrap().wf() && line@ == spec_ser_state(r.unwrap()),
        forall|st: StateByEvent| st.wf() && line@ == spec_ser_state(st) ==> r is Some,
{
    let n = line.unicode_len();
    let i = match expect_lit(line, 0, "{") {
        None => {
            proof {
                assert forall|st: StateByEvent| !(st.wf() && line@ == spec_ser_state(st)) by {
                    if st.wf() && line@ == spec_ser_state(st) {
                        lemma_state_layout(line@, st);
                    }
                }
            }
            return None;
        },
        Some(x) => x,
    };
    proof {
        reveal_strlit("{");
        reveal_strlit("}");
        assert forall|st: StateByEvent|
            st.wf() && line@ == spec_ser_state(st) && st.entries@.len() >= 1 implies (
        #[trigger] entry_list_at(line@, i as int, st.entries@) && line@.len() == i as int
            + spec_ser_entries(st.entries@).len() + 1) by {
            lemma_state_layout(line@, st);
        }
        assert forall|st: StateByEvent|
            st.wf() && line@ == spec_ser_state(st) && st.entries@.len() == 0 implies (line@.len()
            == i + 1 && line@[i as int] == '}') by {
            lemma_state_layout(line@, st);
        }
    }
    if i < n && line.get_char(i) == '}' {
        if i + 1 == n {
            let st = StateByEvent { entries: Vec::new() };
            proof {
                reveal_strlit("{");
                reveal_strlit("}");
                assert(st.entries@ =~= Seq::<TypeEntry>::empty());
                assert(spec_ser_entries(st.entries@) =~= Seq::<char>::empty());
                assert(line@.subrange(0, i as int) == "{"@);
                assert(line@ =~= "{"@ + spec_ser_entries(st.entries@) + "}"@) by {
                    assert(line@.subrange(0, i as int)[0] == line@[0]);
                    assert(line@.len() == 2);
                    assert(line@[0] == "{"@[0]);
                    assert(line@[1] == '}');
                }
                assert(st.wf());
            }
            Some(st)
        } else {
            proof {
                assert forall|st: StateByEvent| !(st.wf() && line@ == spec_ser_state(st)) by {
                    if st.wf() && line@ == spec_ser_state(st) {
                        if st.entries@.len() >= 1 {
                            assert(entry_list_at(line@, i as int, st.entries@));
                            lemma_entries_head(line@, i as int, st.entries@);
                            lemma_entry_layout(line@, i as int, st.entries@[0]);
                            reveal_strlit("\"");
                            lemma_matches_chars(line@, i as int, "\""@);
                            assert(line@[i as int + 0] == "\""@[0]);
                            assert(line@[i as int] == '"');
                        }
                    }
                }
            }
            None
        }
    } else {
        let (entries, j) = match parse_entries_at(line, i) {
            None => {
                proof {
                    assert forall|st: StateByEvent| !(st.wf() && line@ == spec_ser_state(st)) by {
                        if st.wf() && line@ == spec_ser_state(st) {
                            if st.entries@.len() == 0 {
                                assert(line@[i as int] == '}');
                            } else {
                                assert(entry_list_at(line@, i as int, st.entries@));
                            }
                        }
                    }
                }
                return None;
            },
            Some(x) => x,
        };
        let j2 = match expect_lit(line, j, "}") {
            None => {
                proof {
                    reveal_strlit("}");
                    assert forall|st: StateByEvent| !(st.wf() && line@ == spec_ser_state(st)) by {
                        if st.wf() && line@ == spec_ser_state(st) {
                            if st.entries@.len() == 0 {
                                assert(line@[i as int] == '}');
                            } else {
                                assert(entry_list_at(line@, i as int, st.entries@));
                                assert(j == i + spec_ser_entries(st.entries@).len());
                                assert(line@[j as int] == '}');
                                assert(line@.subrange(j as int, j + 1)[0] == line@[j as int]);
                                assert(line@.subrange(j as int, j + 1) =~= "}"@);
                            }
                        }
                    }
                }
                return None;
            },
            Some(x) => x,
        };
        if j2 != n {
            proof {
                reveal_strlit("}");
                assert forall|st: StateByEvent| !(st.wf() && line@ == spec_ser_state(st)) by {
                    if st.wf() && line@ == spec_ser_state(st) {
                        if st.entries@.len() == 0 {
                            assert(line@[i as int] == '}');
                        } else {
                            assert(entry_list_at(line@, i as int, st.entries@));
                            assert(j == i + spec_ser_entries(st.entries@).len());
                            assert(line@.len() == j2);
                        }
                    }
                }
            }
            return None;
        }
        if !check_entries(&entries) {
            proof {
                assert forall|st: StateByEvent| !(st.wf() && line@ == spec_ser_state(st)) by {
                    if st.wf() && line@ == spec_ser_state(st) {
                        if st.entries@.len() == 0 {
                            assert(line@[i as int] == '}');
                        } else {
                            assert(entry_list_at(line@, i as int, st.entries@));
                            assert(entries_like(entries@, st.entries@));
                            assert forall|a: int, b: int|
                                0 <= a < b < entries@.len() implies (#[trigger] entries@[a]).etype
                                != (#[trigger] entries@[b]).etype by {
                                assert(te_like(entries@[a], st.entries@[a]));
                                assert(te_like(entries@[b], st.entries@[b]));
                                assert(st.entries@[a].etype != st.entries@[b].etype);
                            }
                            assert forall|k: int|
                                0 <= k < entries@.len() implies days_sorted(
                                (#[trigger] entries@[k]).days@,
                            ) by {
                                assert(te_like(entries@[k], st.entries@[k]));
                                let da = entries@[k].days@;
                                let db = st.entries@[k].days@;
                                assert(st.entries@[k].wf());
                                assert forall|a2: int, b2: int|
                                    0 <= a2 < b2 < da.len() implies date_key(
                                    #[trigger] da[a2].date,
                                ) < date_key(#[trigger] da[b2].date) by {
                                    assert(day_like(da[a2], db[a2]));
                                    assert(day_like(da[b2], db[b2]));
                                    assert(date_key(db[a2].date) < date_key(db[b2].date));
                                }
                            }
                        }
                    }
                }
            }
            return None;
        }
        let st = StateByEvent { entries };
        proof {
            assert forall|k: int| 0 <= k < st.entries@.len() implies (
            #[trigger] st.entries@[k]).wf() by {
                assert(days_sorted(st.entries@[k].days@));
            }
            assert(st.wf());
            lemma_subrange_join(line@, 0, i as int, j as int);
            lemma_subrange_join(line@, 0, j as int, j2 as int);
            reveal_strlit("{");
            reveal_strlit("}");
            assert(line@.subrange(0, i as int) =~= "{"@);
            assert(line@.subrange(j as int, j2 as int) =~= "}"@);
            assert(line@.subrange(0, n as int) =~= line@);
            assert(line@ =~= spec_ser_state(st));
        }
        Some(st)
    }
}

/// How a whole snapshot line decomposes around its entry list.
proof fn lemma_state_layout(s: Seq<char>, st: StateByEvent)
    requires
        st.wf(),
        s == spec_ser_state(st),
    ensures
        matches_at(s, 0, "{"@),
        st.entries@.len() == 0 ==> s.len() == "{"@.len() as int + "}"@.len() && s["{"@.len() as int]
            == '}',
        st.entries@.len() >= 1 ==> entry_list_at(s, "{"@.len() as int, st.entries@),
        s.len() == "{"@.len() as int + spec_ser_entries(st.entries@).len() + "}"@.len(),
{
    let a = "{"@;
    let ej = spec_ser_entries(st.entries@);
    let c = "}"@;
    assert(s =~= a + (ej + c));
    assert(s.subrange(0, s.len() as int) =~= s);
    assert(matches_at(s, 0, a + (ej + c)));
    lemma_matches_split(s, 0, a, ej + c);
    lemma_matches_split(s, a.len() as int, ej, c);
    reveal_strlit("{");
    reveal_strlit("}");
    assert(c.len() == 1);
    lemma_matches_chars(s, a.len() as int + ej.len(), c);
    assert(c[0] == '}');
    assert(s[a.len() as int + ej.len() + 0] == c[0]);
    if st.entries@.len() == 0 {
        assert(ej =~= Seq::<char>::empty());
    }
}
} // verus!
