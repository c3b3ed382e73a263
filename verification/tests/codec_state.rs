use austrian_oak::codec::deserialize_event;
use austrian_oak::codec::serialize_event;
use austrian_oak::codec::wrap_with_quotes;
use austrian_oak::date::current_date;
use austrian_oak::date::Date;
use austrian_oak::event::DurationVal;
use austrian_oak::event::Event;
use austrian_oak::event::EventDetails;
use austrian_oak::event::EventType;
use austrian_oak::event::Quality;
use austrian_oak::grammar::ParseError;
use austrian_oak::log::build_state;
use austrian_oak::log::load_state;
use austrian_oak::log::log;
use austrian_oak::log::LogError;
use austrian_oak::snapshot::serialize_state;
use austrian_oak::state::StateByEvent;

fn d(year: u16, month: u8, day: u8) -> Date {
    Date { year, month, day }
}

fn deadlift(load: u64, reps: u64, date: Date) -> Event {
    Event { event_type: EventType::Deadlift, details: EventDetails::Strength { load, reps }, date }
}

#[test]
fn journal_line_is_canonical() {
    let line = serialize_event(&deadlift(100, 5, d(2024, 1, 15)));
    assert_eq!(line, "{\"type\":\"deadlift\",\"details\":{\"load\":100,\"reps\":5},\"date\":\"2024-01-15\"}");
}

#[test]
fn sleep_line_round_trips() {
    let e = Event {
        event_type: EventType::Sleep,
        details: EventDetails::Sleep {
            quality: Quality::NotGood,
            duration: DurationVal { secs: 27000, nanos: 0 },
        },
        date: d(2023, 11, 30),
    };
    let line = serialize_event(&e);
    assert_eq!(
        line,
        "{\"type\":\"sleep\",\"details\":{\"quality\":\"notgood\",\"duration\":{\"secs\":27000,\"nanos\":0}},\"date\":\"2023-11-30\"}"
    );
    assert_eq!(deserialize_event(&line), Some(e));
}

#[test]
fn every_family_round_trips() {
    let date = d(2024, 2, 29);
    let events = [
        deadlift(0, 12, date),
        Event {
            event_type: EventType::Conditioning,
            details: EventDetails::Conditioning {
                intensity: austrian_oak::event::Intensity::Medium,
                duration: DurationVal { secs: 1800, nanos: 500 },
            },
            date,
        },
        Event {
            event_type: EventType::Nutrition,
            details: EventDetails::Nutrition { quality: Quality::Good },
            date,
        },
        Event {
            event_type: EventType::WeighIn,
            details: EventDetails::WeighIn { mass: 82 },
            date,
        },
    ];
    for e in events {
        assert_eq!(deserialize_event(&serialize_event(&e)), Some(e));
    }
}

#[test]
fn deserializer_rejects_foreign_text() {
    assert_eq!(deserialize_event(""), None);
    assert_eq!(deserialize_event("not a record"), None);
    assert_eq!(deserialize_event("{\"type\":\"deadlift\"}"), None);
    // trailing garbage after a full record
    let mut line = serialize_event(&deadlift(1, 2, d(2024, 1, 1)));
    line.push(' ');
    assert_eq!(deserialize_event(&line), None);
    // a non-canonical numeral
    assert_eq!(
        deserialize_event(
            "{\"type\":\"deadlift\",\"details\":{\"load\":007,\"reps\":5},\"date\":\"2024-01-15\"}"
        ),
        None
    );
}

#[test]
fn index_appends_in_order_without_dedup() {
    let mut st = StateByEvent::new();
    let date = d(2024, 1, 15);
    st.add_event(&deadlift(100, 5, date));
    st.add_event(&deadlift(100, 5, date));
    st.add_event(&deadlift(120, 3, date));
    assert_eq!(st.entries.len(), 1);
    assert_eq!(st.entries[0].etype, EventType::Deadlift);
    assert_eq!(st.entries[0].days.len(), 1);
    let payloads = &st.entries[0].days[0].details;
    assert_eq!(payloads.len(), 3);
    assert_eq!(payloads[0], EventDetails::Strength { load: 100, reps: 5 });
    assert_eq!(payloads[1], EventDetails::Strength { load: 100, reps: 5 });
    assert_eq!(payloads[2], EventDetails::Strength { load: 120, reps: 3 });
}

#[test]
fn index_keeps_days_sorted_by_date() {
    let mut st = StateByEvent::new();
    st.add_event(&deadlift(1, 1, d(2024, 3, 1)));
    st.add_event(&deadlift(2, 2, d(2024, 1, 9)));
    st.add_event(&deadlift(3, 3, d(2024, 2, 5)));
    assert_eq!(st.entries[0].days.len(), 3);
    assert_eq!(st.entries[0].days[0].date, d(2024, 1, 9));
    assert_eq!(st.entries[0].days[1].date, d(2024, 2, 5));
    assert_eq!(st.entries[0].days[2].date, d(2024, 3, 1));
}

#[test]
fn replaying_a_journal_matches_direct_adds() {
    let e1 = deadlift(100, 5, d(2024, 1, 15));
    let e2 = Event {
        event_type: EventType::WeighIn,
        details: EventDetails::WeighIn { mass: 80 },
        date: d(2024, 1, 16),
    };
    let journal = format!("{}\n{}\n\n", serialize_event(&e1), serialize_event(&e2));
    let replayed = build_state(&journal).unwrap();
    let mut direct = StateByEvent::new();
    direct.add_event(&e1);
    direct.add_event(&e2);
    assert_eq!(serialize_state(&replayed), serialize_state(&direct));
}

#[test]
fn replay_reports_the_corrupt_line() {
    let good = serialize_event(&deadlift(1, 1, d(2024, 1, 1)));
    let journal = format!("{}\nhalf a rec", good);
    assert!(matches!(build_state(&journal), Err(line) if line == "half a rec"));
}

#[test]
fn snapshot_round_trips_through_load() {
    let mut st = StateByEvent::new();
    st.add_event(&deadlift(100, 5, d(2024, 1, 15)));
    st.add_event(&Event {
        event_type: EventType::Nutrition,
        details: EventDetails::Nutrition { quality: Quality::Good },
        date: d(2024, 1, 15),
    });
    let snap = serialize_state(&st);
    assert_eq!(
        snap,
        "{\"deadlift\":{\"2024-01-15\":[{\"load\":100,\"reps\":5}]},\"nutrition\":{\"2024-01-15\":[{\"quality\":\"good\"}]}}"
    );
    let back = load_state(&snap).expect("canonical snapshot must load");
    assert_eq!(serialize_state(&back), snap);
    assert!(load_state("unparsable content").is_none());
    assert_eq!(load_state("{}").map(|s| serialize_state(&s)), Some("{}".to_string()));
}

#[test]
fn log_aborts_whole_batch_before_any_write() {
    let r = log("dl,100,5;bp,50", d(2024, 1, 15), "", "");
    assert!(matches!(r, Err(LogError::Parse(ParseError::TooFewFields))));
}

#[test]
fn log_happy_path_emits_lines_and_snapshot() {
    let out = log("dl,100,5;wi,80", d(2024, 1, 15), "", "").unwrap();
    assert_eq!(out.journal_lines.len(), 2);
    assert_eq!(
        out.journal_lines[0],
        "{\"type\":\"deadlift\",\"details\":{\"load\":100,\"reps\":5},\"date\":\"2024-01-15\"}"
    );
    assert_eq!(
        out.snapshot,
        "{\"deadlift\":{\"2024-01-15\":[{\"load\":100,\"reps\":5}]},\"weighin\":{\"2024-01-15\":[{\"mass\":80}]}}"
    );
}

#[test]
fn bad_snapshot_falls_back_to_replay() {
    let e1 = deadlift(100, 5, d(2024, 1, 14));
    let journal = format!("{}\n", serialize_event(&e1));
    let out = log("wi,80,2024-01-15", d(2024, 1, 15), &journal, "unparsable content").unwrap();
    assert_eq!(
        out.snapshot,
        "{\"deadlift\":{\"2024-01-14\":[{\"load\":100,\"reps\":5}]},\"weighin\":{\"2024-01-15\":[{\"mass\":80}]}}"
    );
}

#[test]
fn good_snapshot_is_folded_without_replay() {
    let prev = log("dl,100,5", d(2024, 1, 14), "", "").unwrap();
    // the journal text is deliberately corrupt: the snapshot path must not read it
    let out = log("dl,110,3", d(2024, 1, 15), "garbage journal", &prev.snapshot).unwrap();
    assert_eq!(
        out.snapshot,
        "{\"deadlift\":{\"2024-01-14\":[{\"load\":100,\"reps\":5}],\"2024-01-15\":[{\"load\":110,\"reps\":3}]}}"
    );
}

#[test]
fn corrupt_journal_fails_the_rebuild() {
    let r = log("dl,100,5", d(2024, 1, 15), "broken line\n", "unparsable");
    assert!(matches!(r, Err(LogError::Corrupt(_))));
}

#[test]
fn quoting_helper() {
    assert_eq!(wrap_with_quotes("deadlift"), "\"deadlift\"");
    assert_eq!(wrap_with_quotes(""), "\"\"");
}

#[test]
fn clock_yields_a_calendar_date() {
    let today = current_date().expect("the test host clock is sane");
    assert!(1 <= today.month && today.month <= 12);
    assert!(1 <= today.day && today.day <= 31);
}
