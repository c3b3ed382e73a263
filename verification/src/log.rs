//! One invocation of the tool: parse a batch, render the journal lines to
//! append, bring the index up to date — from the snapshot when it reads
//! back, else by replaying the whole journal — and render the new snapshot.
//! All of it is pure; the caller performs the reads and writes around it.

use vstd::prelude::*;
use vstd::string::StrSliceExecFns;
use vstd::string::StringExecFns;
use crate::date::Date;
use crate::event::Event;
use crate::event::EventType;
use crate::event::EventDetails;
use crate::grammar::ParseError;
use crate::grammar::spec_parse_events;
use crate::grammar::spec_parse_batch;
use crate::grammar::parse_events;
use crate::grammar::lemma_parse_batch_wf;
use crate::codec::spec_ser_event;
use crate::codec::serialize_event;
use crate::codec::deserialize_event;
use crate::snapshot::spec_ser_state;
use crate::snapshot::serialize_state;
use crate::snapshot::deserialize_state;
use crate::state::StateByEvent;
use crate::state::spec_fold_events;
use crate::state::lemma_fold_is_iterated_add;
use crate::strutil::spec_split;
use crate::strutil::split_str;
use crate::strutil::str_views;
use crate::strutil::lemma_split_never_empty;

verus! {

/// Why one invocation failed: the batch was malformed (nothing was written),
/// or a journal line would not read back during a rebuild.
#[derive(Debug)]
pub enum LogError {
    Parse(ParseError),
    Corrupt(String),
}

/// A journal line in good standing: blank, or the canonical rendering of
/// some well-formed event.
pub open spec fn line_ok(l: Seq<char>) -> bool {
    l.len() == 0 || exists|e: Event| e.wf() && l == spec_ser_event(e)
}

/// The event a good nonempty line renders.
pub open spec fn line_event(l: Seq<char>) -> Event {
    choose|e: Event| e.wf() && l == spec_ser_event(e)
}

/// The events of a journal, in line order, blank lines skipped.
pub open spec fn events_of_lines(lines: Seq<Seq<char>>) -> Seq<Event>
    decreases lines.len(),
{
    if lines.len() == 0 {
        Seq::empty()
    } else if lines[0].len() == 0 {
        events_of_lines(lines.skip(1))
    } else {
        seq![line_event(lines[0])] + events_of_lines(lines.skip(1))
    }
}

proof fn lemma_events_take(lines: Seq<Seq<char>>, k: int)
    requires
        0 <= k < lines.len(),
    ensures
        events_of_lines(lines.take(k + 1)) == events_of_lines(lines.take(k)) + (if lines[k].len()
            == 0 {
            Seq::<Event>::empty()
        } else {
            seq![line_event(lines[k])]
        }),
    decreases k,
{
    if k == 0 {
        assert(lines.take(0) =~= Seq::<Seq<char>>::empty());
        assert(events_of_lines(lines.take(0)) == Seq::<Event>::empty());
        let one = lines.take(1);
        assert(one[0] == lines[0]);
        assert(one.skip(1) =~= Seq::<Seq<char>>::empty());
        if lines[0].len() == 0 {
            assert(events_of_lines(one) =~= Seq::<Event>::empty());
            assert(events_of_lines(lines.take(0)) + Seq::<Event>::empty() =~= events_of_lines(
                one,
            ));
        } else {
            assert(events_of_lines(one) =~= seq![line_event(lines[0])]);
            assert(events_of_lines(lines.take(0)) + seq![line_event(lines[0])] =~= events_of_lines(
                one,
            ));
        }
    } else {
        let tl = lines.skip(1);
        lemma_events_take(tl, k - 1);
        assert(lines.take(k + 1).skip(1) =~= tl.take(k));
        assert(lines.take(k).skip(1) =~= tl.take(k - 1));
        assert(lines.take(k + 1)[0] == lines[0]);
        assert(lines.take(k)[0] == lines[0]);
        assert(tl[k - 1] == lines[k]);
        let suffix = if lines[k].len() == 0 {
            Seq::<Event>::empty()
        } else {
            seq![line_event(lines[k])]
        };
        assert(events_of_lines(tl.take(k)) == events_of_lines(tl.take(k - 1)) + suffix);
        if lines[0].len() == 0 {
            assert(events_of_lines(lines.take(k + 1)) == events_of_lines(tl.take(k)));
            assert(events_of_lines(lines.take(k)) == events_of_lines(tl.take(k - 1)));
        } else {
            assert(events_of_lines(lines.take(k + 1)) == seq![line_event(lines[0])]
                + events_of_lines(tl.take(k)));
            assert(events_of_lines(lines.take(k)) == seq![line_event(lines[0])] + events_of_lines(
                tl.take(k - 1),
            ));
            assert(seq![line_event(lines[0])] + (events_of_lines(tl.take(k - 1)) + suffix) =~= (
            seq![line_event(lines[0])] + events_of_lines(tl.take(k - 1))) + suffix);
        }
    }
}

/// Rebuilds the index by replaying a whole journal: every nonempty line must
/// read back as an event, and the result is exactly the fold of those events
/// over an empty index, in journal order — so a rebuild agrees with an index
/// maintained by the same `add_event` calls one at a time.
pub fn build_state(journal: &str) -> (r: Result<StateByEvent, String>)
    ensures
        (r is Ok <==> (forall|i: int|
            0 <= i < spec_split(journal@, '\n').len() ==> line_ok(
                #[trigger] spec_split(journal@, '\n')[i],
            ))),
        r is Ok ==> r.unwrap().wf() && r.unwrap().as_map() == spec_fold_events(
            Map::empty(),
            events_of_lines(spec_split(journal@, '\n')),
        ),
        r is Err ==> exists|i: int|
            0 <= i < spec_split(journal@, '\n').len() && !line_ok(
                #[trigger] spec_split(journal@, '\n')[i],
            ) && r.unwrap_err()@ == spec_split(journal@, '\n')[i],
{
    let parts = split_str(journal, '\n');
    let ghost lines = str_views(parts@);
    proof {
        assert(forall|i: int| 0 <= i < parts@.len() ==> lines[i] == #[trigger] parts@[i]@);
    }
    let mut st = StateByEvent::new();
    let mut k: usize = 0;
    while k < parts.len()
        invariant
            lines == str_views(parts@),
            lines == spec_split(journal@, '\n'),
            lines.len() == parts@.len(),
            forall|i: int| 0 <= i < parts@.len() ==> lines[i] == #[trigger] parts@[i]@,
            0 <= k <= parts@.len(),
            st.wf(),
            forall|j: int| 0 <= j < k ==> line_ok(#[trigger] lines[j]),
            st.as_map() == spec_fold_events(Map::empty(), events_of_lines(lines.take(k as int))),
        decreases parts@.len() - k,
    {
        let line = parts[k];
        if line.unicode_len() > 0 {
            match deserialize_event(line) {
                None => {
                    proof {
                        assert(!line_ok(lines[k as int])) by {
                            if line_ok(lines[k as int]) {
                                let e = choose|e: Event|
                                    e.wf() && lines[k as int] == spec_ser_event(e);
                                assert(e.wf() && line@ == spec_ser_event(e));
                            }
                        }
                    }
                    return Err(String::from_str(line));
                },
                Some(ev) => {
                    proof {
                        assert(ev.wf() && lines[k as int] == spec_ser_event(ev));
                        assert(line_ok(lines[k as int]));
                        assert(line_event(lines[k as int]) == ev) by {
                            let e2 = choose|e: Event|
                                e.wf() && lines[k as int] == spec_ser_event(e);
                            assert(e2.wf() && line@ == spec_ser_event(e2));
                        };
                        lemma_events_take(lines, k as int);
                        let es1 = events_of_lines(lines.take(k + 1));
                        assert(es1 == events_of_lines(lines.take(k as int)) + seq![ev]);
                        assert(es1.len() > 0);
                        lemma_fold_is_iterated_add(Map::empty(), es1);
                        assert(es1.drop_last() =~= events_of_lines(lines.take(k as int)));
                        assert(es1.last() == ev);
                    }
                    st.add_event(&ev);
                },
            }
        } else {
            proof {
                assert(line_ok(lines[k as int]));
                lemma_events_take(lines, k as int);
                assert(events_of_lines(lines.take(k + 1)) =~= events_of_lines(
                    lines.take(k as int),
                ));
            }
        }
        k = k + 1;
    }
    proof {
        assert(lines.take(parts@.len() as int) =~= lines);
    }
    Ok(st)
}

/// Reads the persisted snapshot: its first line must be the canonical
/// rendering of a well-formed state. Anything else — a missing record, a
/// truncated file, foreign text — comes back `None` and the caller rebuilds.
pub fn load_state(snapshot: &str) -> (r: Option<StateByEvent>)
    ensures
        r is Some ==> r.unwrap().wf() && spec_split(snapshot@, '\n')[0] == spec_ser_state(
            r.unwrap(),
        ),
        snapshot_readable(snapshot@) ==> r is Some,
{
    let parts = split_str(snapshot, '\n');
    proof {
        lemma_split_never_empty(snapshot@, '\n');
        assert(str_views(parts@)[0] == parts@[0]@);
    }
    let r = deserialize_state(parts[0]);
    proof {
        if snapshot_readable(snapshot@) {
            let st0 = choose|st0: StateByEvent|
                st0.wf() && spec_split(snapshot@, '\n')[0] == spec_ser_state(st0);
            assert(st0.wf() && parts@[0]@ == spec_ser_state(st0));
        }
    }
    r
}

/// What one successful invocation hands back: the serialized lines to append
/// to the journal, in batch order, and the full new snapshot text.
pub struct LogOutcome {
    pub journal_lines: Vec<String>,
    pub snapshot: String,
}

/// The index that replaying the whole journal yields.
pub open spec fn replayed_map(journal: Seq<char>) -> Map<
    EventType,
    Map<Date, Seq<EventDetails>>,
> {
    spec_fold_events(Map::empty(), events_of_lines(spec_split(journal, '\n')))
}

/// The snapshot's first line is the canonical rendering of some state.
pub open spec fn snapshot_readable(snapshot: Seq<char>) -> bool {
    exists|st0: StateByEvent| st0.wf() && spec_split(snapshot, '\n')[0] == spec_ser_state(st0)
}

/// Every journal line is blank or reads back as an event.
pub open spec fn journal_readable(journal: Seq<char>) -> bool {
    forall|i: int|
        0 <= i < spec_split(journal, '\n').len() ==> line_ok(
            #[trigger] spec_split(journal, '\n')[i],
        )
}

/// One whole invocation, pure: parse the batch (a parse error aborts it all,
/// so a bad batch yields no journal line at all), render one journal line per
/// event, then fold the events into the snapshot state when the snapshot
/// reads back and into a full journal replay when it does not — the designed
/// self-healing path, which never fails just because the snapshot is bad.
pub fn log(input: &str, today: Date, journal: &str, snapshot: &str) -> (r: Result<
    LogOutcome,
    LogError,
>)
    requires
        today.valid(),
    ensures
        spec_parse_events(input@, today) is Err ==> r is Err && r->Err_0 is Parse && (
        r->Err_0->Parse_0 == spec_parse_events(input@, today)->Err_0),
        r is Ok ==> spec_parse_events(input@, today) is Ok,
        r is Ok ==> ({
            let es = spec_parse_events(input@, today)->Ok_0;
            let out = r->Ok_0;
            &&& out.journal_lines@.len() == es.len()
            &&& (forall|i: int|
                0 <= i < es.len() ==> out.journal_lines@[i]@ == spec_ser_event(#[trigger] es[i]))
            &&& exists|st: StateByEvent|
                #[trigger] st.wf() && out.snapshot@ == spec_ser_state(st) && ((exists|
                    st0: StateByEvent,
                |
                    st0.wf() && spec_split(snapshot@, '\n')[0] == spec_ser_state(st0)
                        && st.as_map() == spec_fold_events(st0.as_map(), es)) || st.as_map()
                    == spec_fold_events(replayed_map(journal@), es))
        }),
        (spec_parse_events(input@, today) is Ok && snapshot_readable(snapshot@)) ==> r is Ok,
        (r is Ok && snapshot_readable(snapshot@)) ==> (exists|st: StateByEvent, st0: StateByEvent|
            st.wf() && r->Ok_0.snapshot@ == spec_ser_state(st) && st0.wf() && spec_split(
                snapshot@,
                '\n',
            )[0] == spec_ser_state(st0) && #[trigger] st.as_map() == spec_fold_events(
                #[trigger] st0.as_map(),
                spec_parse_events(input@, today)->Ok_0,
            )),
        (spec_parse_events(input@, today) is Ok && !snapshot_readable(snapshot@)
            && journal_readable(journal@)) ==> r is Ok && (exists|st: StateByEvent|
            #[trigger] st.wf() && r->Ok_0.snapshot@ == spec_ser_state(st) && st.as_map()
                == spec_fold_events(
                replayed_map(journal@),
                spec_parse_events(input@, today)->Ok_0,
            )),
        r is Err && r->Err_0 is Corrupt ==> !journal_readable(journal@),
{
    let events = match parse_events(input, today) {
        Err(e) => {
            return Err(LogError::Parse(e));
        },
        Ok(es) => es,
    };
    proof {
        lemma_parse_batch_wf(spec_split(input@, ';'), today);
        assert(spec_parse_batch(spec_split(input@, ';'), today) == Ok::<Seq<Event>, ParseError>(
            events@,
        ));
        assert forall|i: int| 0 <= i < events@.len() implies (#[trigger] events@[i]).wf() by {
            assert(events@[i] == spec_parse_batch(spec_split(input@, ';'), today).unwrap()[i]);
        }
    }
    let ghost es = events@;
    let mut journal_lines: Vec<String> = Vec::new();
    let mut k: usize = 0;
    while k < events.len()
        invariant
            es == events@,
            forall|i: int| 0 <= i < es.len() ==> (#[trigger] es[i]).wf(),
            0 <= k <= es.len(),
            journal_lines@.len() == k,
            forall|i: int|
                0 <= i < k ==> journal_lines@[i]@ == spec_ser_event(#[trigger] es[i]),
        decreases es.len() - k,
    {
        journal_lines.push(serialize_event(&events[k]));
        k = k + 1;
    }
    let st_final: StateByEvent;
    let ghost from_snapshot: bool;
    let ghost base: Map<EventType, Map<Date, Seq<EventDetails>>>;
    match load_state(snapshot) {
        Some(st0) => {
            proof {
                from_snapshot = true;
                base = st0.as_map();
            }
            let ghost snap_base = st0;
            proof {
                assert(snap_base.wf() && spec_split(snapshot@, '\n')[0] == spec_ser_state(
                    snap_base,
                ) && base == snap_base.as_map());
            }
            let mut stm = st0;
            let mut j: usize = 0;
            while j < events.len()
                invariant
                    es == events@,
                    forall|i: int| 0 <= i < es.len() ==> (#[trigger] es[i]).wf(),
                    0 <= j <= es.len(),
                    stm.wf(),
                    stm.as_map() == spec_fold_events(base, es.take(j as int)),
                decreases es.len() - j,
            {
                proof {
                    lemma_fold_is_iterated_add(base, es.take(j + 1));
                    assert(es.take(j + 1).drop_last() =~= es.take(j as int));
                    assert(es.take(j + 1).last() == es[j as int]);
                }
                stm.add_event(&events[j]);
                j = j + 1;
            }
            proof {
                assert(es.take(es.len() as int) =~= es);
            }
            st_final = stm;
        },
        None => {
            proof {
                assert(!snapshot_readable(snapshot@));
            }
            let mut stm = match build_state(journal) {
                Err(l) => {
                    return Err(LogError::Corrupt(l));
                },
                Ok(s) => s,
            };
            proof {
                from_snapshot = false;
                base = stm.as_map();
                assert(base == replayed_map(journal@));
            }
            let mut j: usize = 0;
            while j < events.len()
                invariant
                    es == events@,
                    forall|i: int| 0 <= i < es.len() ==> (#[trigger] es[i]).wf(),
                    0 <= j <= es.len(),
                    stm.wf(),
                    stm.as_map() == spec_fold_events(base, es.take(j as int)),
                decreases es.len() - j,
            {
                proof {
                    lemma_fold_is_iterated_add(base, es.take(j + 1));
                    assert(es.take(j + 1).drop_last() =~= es.take(j as int));
                    assert(es.take(j + 1).last() == es[j as int]);
                }
                stm.add_event(&events[j]);
                j = j + 1;
            }
            proof {
                assert(es.take(es.len() as int) =~= es);
            }
            st_final = stm;
        },
    }
    let snapshot_out = serialize_state(&st_final);
    let out = LogOutcome { journal_lines, snapshot: snapshot_out };
    proof {
        assert(st_final.wf() && out.snapshot@ == spec_ser_state(st_final) && st_final.as_map()
            == spec_fold_events(base, es));
        assert(snapshot_readable(snapshot@) ==> from_snapshot);
        if from_snapshot {
            assert(exists|st0: StateByEvent|
                st0.wf() && spec_split(snapshot@, '\n')[0] == spec_ser_state(st0)
                    && st_final.as_map() == spec_fold_events(#[trigger] st0.as_map(), es));
        }
    }
    Ok(out)
}

} // verus!
