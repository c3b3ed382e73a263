use austrian_oak::date::Date;
use austrian_oak::event::DurationVal;
use austrian_oak::event::Event;
use austrian_oak::event::EventDetails;
use austrian_oak::event::EventType;
use austrian_oak::event::Intensity;
use austrian_oak::event::Quality;
use austrian_oak::grammar::parse_event;
use austrian_oak::grammar::parse_events;
use austrian_oak::grammar::ParseError;

fn d(year: u16, month: u8, day: u8) -> Date {
    Date { year, month, day }
}

#[test]
fn deadlift_shorthand_with_default_date() {
    let got = parse_event("dl,100,5", d(2024, 1, 15));
    assert_eq!(
        got,
        Ok(Event {
            event_type: EventType::Deadlift,
            details: EventDetails::Strength { load: 100, reps: 5 },
            date: d(2024, 1, 15),
        })
    );
}

#[test]
fn sleep_with_humantime_duration() {
    let today = d(2024, 3, 2);
    let got = parse_event("sleep,good,8h", today);
    assert_eq!(
        got,
        Ok(Event {
            event_type: EventType::Sleep,
            details: EventDetails::Sleep {
                quality: Quality::Good,
                duration: DurationVal { secs: 28800, nanos: 0 },
            },
            date: today,
        })
    );
}

#[test]
fn explicit_trailing_date_overrides_default() {
    let got = parse_event("sq,80,5,2023-12-01", d(2024, 1, 15));
    assert_eq!(
        got,
        Ok(Event {
            event_type: EventType::Squat,
            details: EventDetails::Strength { load: 80, reps: 5 },
            date: d(2023, 12, 1),
        })
    );
}

#[test]
fn missing_reps_is_too_few_fields() {
    assert_eq!(parse_event("bp,50", d(2024, 1, 15)), Err(ParseError::TooFewFields));
}

#[test]
fn unknown_tag_is_rejected() {
    assert_eq!(parse_event("xyz,1,2", d(2024, 1, 15)), Err(ParseError::UnknownEventType));
    assert_eq!(parse_event("", d(2024, 1, 15)), Err(ParseError::UnknownEventType));
}

#[test]
fn non_numeric_load_is_rejected() {
    assert_eq!(parse_event("dl,abc,5", d(2024, 1, 15)), Err(ParseError::InvalidNumber));
    assert_eq!(parse_event("dl,007,5", d(2024, 1, 15)), Err(ParseError::InvalidNumber));
    assert_eq!(parse_event("dl,-3,5", d(2024, 1, 15)), Err(ParseError::InvalidNumber));
}

#[test]
fn mass_bounds() {
    let got = parse_event("wi,18446744073709551615", d(2024, 1, 15));
    assert_eq!(
        got,
        Ok(Event {
            event_type: EventType::WeighIn,
            details: EventDetails::WeighIn { mass: 18446744073709551615 },
            date: d(2024, 1, 15),
        })
    );
    assert_eq!(
        parse_event("wi,18446744073709551616", d(2024, 1, 15)),
        Err(ParseError::InvalidNumber)
    );
}

#[test]
fn bad_enumeration_value() {
    assert_eq!(parse_event("sleep,meh,8h", d(2024, 1, 15)), Err(ParseError::InvalidEnumValue));
    assert_eq!(parse_event("co,extreme,30m", d(2024, 1, 15)), Err(ParseError::InvalidEnumValue));
}

#[test]
fn bad_duration() {
    assert_eq!(parse_event("sleep,good,zz", d(2024, 1, 15)), Err(ParseError::InvalidDuration));
}

#[test]
fn bad_dates() {
    assert_eq!(parse_event("dl,100,5,2023-13-01", d(2024, 1, 15)), Err(ParseError::InvalidDate));
    assert_eq!(parse_event("dl,100,5,2023-02-30", d(2024, 1, 15)), Err(ParseError::InvalidDate));
    assert_eq!(parse_event("dl,100,5,23-02-01", d(2024, 1, 15)), Err(ParseError::InvalidDate));
}

#[test]
fn leap_day_is_accepted_only_in_leap_years() {
    assert!(parse_event("dl,100,5,2024-02-29", d(2024, 1, 15)).is_ok());
    assert_eq!(parse_event("dl,100,5,2023-02-29", d(2024, 1, 15)), Err(ParseError::InvalidDate));
}

#[test]
fn conditioning_and_nutrition() {
    let today = d(2024, 1, 15);
    assert_eq!(
        parse_event("co,high,30m", today),
        Ok(Event {
            event_type: EventType::Conditioning,
            details: EventDetails::Conditioning {
                intensity: Intensity::High,
                duration: DurationVal { secs: 1800, nanos: 0 },
            },
            date: today,
        })
    );
    assert_eq!(
        parse_event("nu,notgood", today),
        Ok(Event {
            event_type: EventType::Nutrition,
            details: EventDetails::Nutrition { quality: Quality::NotGood },
            date: today,
        })
    );
}

#[test]
fn batch_keeps_order() {
    let today = d(2024, 1, 15);
    let got = parse_events("dl,1,2;wi,80", today).unwrap();
    assert_eq!(got.len(), 2);
    assert_eq!(got[0].event_type, EventType::Deadlift);
    assert_eq!(got[1].event_type, EventType::WeighIn);
}

#[test]
fn batch_fails_fast_on_one_bad_command() {
    let today = d(2024, 1, 15);
    assert_eq!(parse_events("dl,100,5;bp,50;wi,80", today), Err(ParseError::TooFewFields));
    assert_eq!(parse_events("nope,1;dl,100,5", today), Err(ParseError::UnknownEventType));
}

#[test]
fn empty_input_is_no_command() {
    let today = d(2024, 1, 15);
    assert_eq!(parse_events("", today), Err(ParseError::UnknownEventType));
    assert_eq!(parse_events("dl,1,2;;wi,80", today), Err(ParseError::UnknownEventType));
}

#[test]
fn error_messages_are_descriptive() {
    assert_eq!(ParseError::TooFewFields.message(), "Input had too few fields.");
    assert_eq!(ParseError::UnknownEventType.message(), "Unknown event type.");
}
