//! The shorthand command grammar: one comma-delimited command becomes one
//! typed event; a semicolon-separated batch becomes all of its events or,
//! fail-fast, the first error.

use vstd::prelude::*;
use vstd::string::StringExecFns;
use vstd::string::StrSliceExecFns;
use crate::date::Date;
use crate::date::spec_parse_date;
use crate::date::parse_date_field;
use crate::event::Event;
use crate::event::EventType;
use crate::event::EventDetails;
use crate::event::DurationVal;
use crate::event::spec_expand;
use crate::event::expand_shortcode;
use crate::event::spec_name_to_type;
use crate::event::name_to_type;
use crate::event::spec_name_to_quality;
use crate::event::name_to_quality;
use crate::event::spec_name_to_intensity;
use crate::event::name_to_intensity;
use crate::num::spec_parse_nat;
use crate::num::parse_nat_field;
use crate::strutil::spec_split;
use crate::strutil::split_str;
use crate::strutil::str_views;
use crate::strutil::lemma_split_never_empty;

verus! {

/// Why a command was rejected; the batch never partially succeeds.
#[derive(Clone, Copy, Debug, PartialEq, Eq, Structural)]
pub enum ParseError {
    UnknownEventType,
    TooFewFields,
    InvalidNumber,
    InvalidEnumValue,
    InvalidDuration,
    InvalidDate,
}

pub open spec fn spec_parse_error_message(e: ParseError) -> Seq<char> {
    match e {
        ParseError::UnknownEventType => "Unknown event type."@,
        ParseError::TooFewFields => "Input had too few fields."@,
        ParseError::InvalidNumber => "Field was not a non-negative integer."@,
        ParseError::InvalidEnumValue => "Field was not a known enumeration value."@,
        ParseError::InvalidDuration => "Field was not a valid duration."@,
        ParseError::InvalidDate => "Field was not a valid date."@,
    }
}

impl ParseError {
    /// A human-readable description, for callers that print errors.
    pub fn message(&self) -> (r: String)
        ensures
            r@ == spec_parse_error_message(*self),
    {
        match self {
            ParseError::UnknownEventType => String::from_str("Unknown event type."),
            ParseError::TooFewFields => String::from_str("Input had too few fields."),
            ParseError::InvalidNumber => String::from_str("Field was not a non-negative integer."),
            ParseError::InvalidEnumValue => String::from_str(
                "Field was not a known enumeration value.",
            ),
            ParseError::InvalidDuration => String::from_str("Field was not a valid duration."),
            ParseError::InvalidDate => String::from_str("Field was not a valid date."),
        }
    }
}

/// What `humantime::parse_duration` makes of a duration field: a function of
/// the characters alone, left unspecified here.
pub uninterp spec fn duration_of(s: Seq<char>) -> Option<DurationVal>;

/// Relies on `humantime::parse_duration`: parses a human-friendly elapsed
/// time such as `8h` or `30m`. The result depends only on the argument, so it
/// is named by `duration_of` and nothing more is assumed of it. The length
/// bound keeps clear of the one unchecked carry in humantime's nanosecond
/// accumulation: it can only overflow when the second segments sum to
/// exactly `u64::MAX` while the subsecond segments sum to a whole second,
/// which takes well over seventeen characters to write.
#[verifier::external_body]
fn parse_duration_field(s: &str) -> (r: Option<DurationVal>)
    requires
        s@.len() <= 17,
    ensures
        r == duration_of(s@),
{
    match humantime::parse_duration(s) {
        Ok(d) => Some(DurationVal { secs: d.as_secs(), nanos: d.subsec_nanos() }),
        Err(_) => None,
    }
}

/// The position of the optional trailing date field of a command of type `t`:
/// right after the family-specific fields.
pub open spec fn spec_date_index(t: EventType) -> int {
    match t {
        EventType::Nutrition => 2,
        EventType::WeighIn => 2,
        _ => 3,
    }
}

pub fn date_index(t: EventType) -> (r: usize)
    ensures
        r as int == spec_date_index(t),
{
    match t {
        EventType::Nutrition => 2,
        EventType::WeighIn => 2,
        _ => 3,
    }
}

/// The family-specific payload of a command, read positionally from the
/// fields after the tag, exactly as the grammar consumes them.
pub open spec fn spec_details_of_fields(t: EventType, fields: Seq<Seq<char>>) -> Result<
    EventDetails,
    ParseError,
> {
    match t {
        EventType::Sleep => {
            if fields.len() < 2 {
                Err(ParseError::TooFewFields)
            } else {
                match spec_name_to_quality(fields[1]) {
                    None => Err(ParseError::InvalidEnumValue),
                    Some(q) => {
                        if fields.len() < 3 {
                            Err(ParseError::TooFewFields)
                        } else if fields[2].len() > 17 {
                            Err(ParseError::InvalidDuration)
                        } else {
                            match duration_of(fields[2]) {
                                None => Err(ParseError::InvalidDuration),
                                Some(dur) => Ok(
                                    EventDetails::Sleep { quality: q, duration: dur },
                                ),
                            }
                        }
                    },
                }
            }
        },
        EventType::Nutrition => {
            if fields.len() < 2 {
                Err(ParseError::TooFewFields)
            } else {
                match spec_name_to_quality(fields[1]) {
                    None => Err(ParseError::InvalidEnumValue),
                    Some(q) => Ok(EventDetails::Nutrition { quality: q }),
                }
            }
        },
        EventType::Conditioning => {
            if fields.len() < 2 {
                Err(ParseError::TooFewFields)
            } else {
                match spec_name_to_intensity(fields[1]) {
                    None => Err(ParseError::InvalidEnumValue),
                    Some(v) => {
                        if fields.len() < 3 {
                            Err(ParseError::TooFewFields)
                        } else if fields[2].len() > 17 {
                            Err(ParseError::InvalidDuration)
                        } else {
                            match duration_of(fields[2]) {
                                None => Err(ParseError::InvalidDuration),
                                Some(dur) => Ok(
                                    EventDetails::Conditioning { intensity: v, duration: dur },
                                ),
                            }
                        }
                    },
                }
            }
        },
        EventType::WeighIn => {
            if fields.len() < 2 {
                Err(ParseError::TooFewFields)
            } else {
                match spec_parse_nat(fields[1]) {
                    None => Err(ParseError::InvalidNumber),
                    Some(mass) => Ok(EventDetails::WeighIn { mass }),
                }
            }
        },
        _ => {
            if fields.len() < 2 {
                Err(ParseError::TooFewFields)
            } else {
                match spec_parse_nat(fields[1]) {
                    None => Err(ParseError::InvalidNumber),
                    Some(load) => {
                        if fields.len() < 3 {
                            Err(ParseError::TooFewFields)
                        } else {
                            match spec_parse_nat(fields[2]) {
                                None => Err(ParseError::InvalidNumber),
                                Some(reps) => Ok(EventDetails::Strength { load, reps }),
                            }
                        }
                    },
                }
            }
        },
    }
}

/// One command: tag (shortcodes expanded), the family's fields, then an
/// optional explicit date; without one the event is dated `today`.
pub open spec fn spec_parse_cmd(s: Seq<char>, today: Date) -> Result<Event, ParseError> {
    let fields = spec_split(s, ',');
    match spec_name_to_type(spec_expand(fields[0])) {
        None => Err(ParseError::UnknownEventType),
        Some(t) => match spec_details_of_fields(t, fields) {
            Err(e) => Err(e),
            Ok(details) => {
                let di = spec_date_index(t);
                if fields.len() > di {
                    match spec_parse_date(fields[di]) {
                        None => Err(ParseError::InvalidDate),
                        Some(d) => Ok(Event { event_type: t, details, date: d }),
                    }
                } else {
                    Ok(Event { event_type: t, details, date: today })
                }
            },
        },
    }
}

fn details_of_fields(t: EventType, fields: &Vec<&str>) -> (r: Result<EventDetails, ParseError>)
    ensures
        r == spec_details_of_fields(t, str_views(fields@)),
{
    let ghost sf = str_views(fields@);
    proof {
        assert(sf.len() == fields@.len());
        assert(forall|i: int| 0 <= i < fields@.len() ==> sf[i] == #[trigger] fields@[i]@);
    }
    match t {
        EventType::Sleep => {
            if fields.len() < 2 {
                Err(ParseError::TooFewFields)
            } else {
                match name_to_quality(fields[1]) {
                    None => Err(ParseError::InvalidEnumValue),
                    Some(q) => {
                        if fields.len() < 3 {
                            Err(ParseError::TooFewFields)
                        } else if fields[2].unicode_len() > 17 {
                            Err(ParseError::InvalidDuration)
                        } else {
                            match parse_duration_field(fields[2]) {
                                None => Err(ParseError::InvalidDuration),
                                Some(dur) => Ok(
                                    EventDetails::Sleep { quality: q, duration: dur },
                                ),
                            }
                        }
                    },
                }
            }
        },
        EventType::Nutrition => {
            if fields.len() < 2 {
                Err(ParseError::TooFewFields)
            } else {
                match name_to_quality(fields[1]) {
                    None => Err(ParseError::InvalidEnumValue),
                    Some(q) => Ok(EventDetails::Nutrition { quality: q }),
                }
            }
        },
        EventType::Conditioning => {
            if fields.len() < 2 {
                Err(ParseError::TooFewFields)
            } else {
                match name_to_intensity(fields[1]) {
                    None => Err(ParseError::InvalidEnumValue),
                    Some(v) => {
                        if fields.len() < 3 {
                            Err(ParseError::TooFewFields)
                        } else if fields[2].unicode_len() > 17 {
                            Err(ParseError::InvalidDuration)
                        } else {
                            match parse_duration_field(fields[2]) {
                                None => Err(ParseError::InvalidDuration),
                                Some(dur) => Ok(
                                    EventDetails::Conditioning { intensity: v, duration: dur },
                                ),
                            }
                        }
                    },
                }
            }
        },
        EventType::WeighIn => {
            if fields.len() < 2 {
                Err(ParseError::TooFewFields)
            } else {
                match parse_nat_field(fields[1]) {
                    None => Err(ParseError::InvalidNumber),
                    Some(mass) => Ok(EventDetails::WeighIn { mass }),
                }
            }
        },
        EventType::Deadlift
        | EventType::Squat
        | EventType::FrontSquat
        | EventType::Bench
        | EventType::Press
        | EventType::PosteriorPress
        | EventType::CleanAndJerk
        | EventType::Snatch
        | EventType::Row
        | EventType::Curl
        | EventType::TricepExtension
        | EventType::TricepPushdown
        | EventType::Nordic
        | EventType::WidePulldown
        | EventType::NarrowPulldown
        | EventType::FacePull
        | EventType::LateralRaise => {
            if fields.len() < 2 {
                Err(ParseError::TooFewFields)
            } else {
                match parse_nat_field(fields[1]) {
                    None => Err(ParseError::InvalidNumber),
                    Some(load) => {
                        if fields.len() < 3 {
                            Err(ParseError::TooFewFields)
                        } else {
                            match parse_nat_field(fields[2]) {
                                None => Err(ParseError::InvalidNumber),
                                Some(reps) => Ok(EventDetails::Strength { load, reps }),
                            }
                        }
                    },
                }
            }
        },
    }
}

/// Parses one shorthand command. `today` supplies the date when the command
/// carries no explicit trailing date.
pub fn parse_event(input: &str, today: Date) -> (r: Result<Event, ParseError>)
    ensures
        r == spec_parse_cmd(input@, today),
{
    let fields = split_str(input, ',');
    proof {
        lemma_split_never_empty(input@, ',');
        assert(forall|i: int|
            0 <= i < fields@.len() ==> str_views(fields@)[i] == #[trigger] fields@[i]@);
    }
    let tag = expand_shortcode(fields[0]);
    match name_to_type(tag) {
        None => Err(ParseError::UnknownEventType),
        Some(t) => {
            match details_of_fields(t, &fields) {
                Err(e) => Err(e),
                Ok(details) => {
                    let di = date_index(t);
                    if fields.len() > di {
                        match parse_date_field(fields[di]) {
                            None => Err(ParseError::InvalidDate),
                            Some(d) => Ok(Event { event_type: t, details, date: d }),
                        }
                    } else {
                        Ok(Event { event_type: t, details, date: today })
                    }
                },
            }
        },
    }
}

/// A batch of commands, first error wins and no event of a failed batch is
/// kept.
pub open spec fn spec_parse_batch(cmds: Seq<Seq<char>>, today: Date) -> Result<
    Seq<Event>,
    ParseError,
>
    decreases cmds.len(),
{
    if cmds.len() == 0 {
        Ok(Seq::empty())
    } else {
        match spec_parse_cmd(cmds[0], today) {
            Err(e) => Err(e),
            Ok(ev) => match spec_parse_batch(cmds.skip(1), today) {
                Err(e) => Err(e),
                Ok(rest) => Ok(seq![ev] + rest),
            },
        }
    }
}

/// A batch input: semicolon-separated commands.
pub open spec fn spec_parse_events(s: Seq<char>, today: Date) -> Result<Seq<Event>, ParseError> {
    spec_parse_batch(spec_split(s, ';'), today)
}

proof fn lemma_batch_prefix(cmds: Seq<Seq<char>>, today: Date, k: int, done: Seq<Event>)
    requires
        0 <= k <= cmds.len(),
        done.len() == k,
        forall|j: int| 0 <= j < k ==> spec_parse_cmd(cmds[j], today) == Ok::<Event, ParseError>(
            #[trigger] done[j],
        ),
    ensures
        spec_parse_batch(cmds, today) == match spec_parse_batch(cmds.skip(k), today) {
            Ok(rest) => Ok::<Seq<Event>, ParseError>(done + rest),
            Err(e) => Err::<Seq<Event>, ParseError>(e),
        },
    decreases k,
{
    if k == 0 {
        assert(cmds.skip(0) =~= cmds);
        match spec_parse_batch(cmds, today) {
            Ok(rest) => {
                assert(done + rest =~= rest);
            },
            Err(e) => {},
        }
    } else {
        assert(cmds.len() > 0);
        let tail = cmds.skip(1);
        let dtail = done.skip(1);
        assert(spec_parse_cmd(cmds[0], today) == Ok::<Event, ParseError>(done[0]));
        assert forall|j: int| 0 <= j < k - 1 implies spec_parse_cmd(tail[j], today) == Ok::<
            Event,
            ParseError,
        >(#[trigger] dtail[j]) by {
            assert(tail[j] == cmds[j + 1]);
            assert(dtail[j] == done[j + 1]);
        }
        lemma_batch_prefix(tail, today, k - 1, dtail);
        assert(tail.skip(k - 1) =~= cmds.skip(k));
        match spec_parse_batch(cmds.skip(k), today) {
            Ok(rest) => {
                assert(spec_parse_batch(tail, today) == Ok::<Seq<Event>, ParseError>(
                    dtail + rest,
                ));
                assert(seq![done[0]] + (dtail + rest) =~= done + rest);
            },
            Err(e) => {
                assert(spec_parse_batch(tail, today) == Err::<Seq<Event>, ParseError>(e));
            },
        }
    }
}

/// Parses a semicolon-separated batch of commands, failing fast: one invalid
/// command anywhere rejects the whole batch and yields no events at all.
pub fn parse_events(input: &str, today: Date) -> (r: Result<Vec<Event>, ParseError>)
    ensures
        (match r {
            Ok(es) => spec_parse_events(input@, today) == Ok::<Seq<Event>, ParseError>(es@),
            Err(e) => spec_parse_events(input@, today) == Err::<Seq<Event>, ParseError>(e),
        }),
{
    let cmds = split_str(input, ';');
    let ghost scmds = str_views(cmds@);
    proof {
        assert(forall|i: int| 0 <= i < cmds@.len() ==> scmds[i] == #[trigger] cmds@[i]@);
    }
    let mut out: Vec<Event> = Vec::new();
    let mut k: usize = 0;
    while k < cmds.len()
        invariant
            scmds == str_views(cmds@),
            scmds == spec_split(input@, ';'),
            scmds.len() == cmds@.len(),
            forall|i: int| 0 <= i < cmds@.len() ==> scmds[i] == #[trigger] cmds@[i]@,
            0 <= k <= cmds@.len(),
            out@.len() == k,
            forall|j: int| 0 <= j < k ==> spec_parse_cmd(scmds[j], today) == Ok::<
                Event,
                ParseError,
            >(#[trigger] out@[j]),
        decreases cmds@.len() - k,
    {
        match parse_event(cmds[k], today) {
            Err(e) => {
                proof {
                    lemma_batch_prefix(scmds, today, k as int, out@);
                    assert(scmds.skip(k as int).len() > 0);
                    assert(scmds.skip(k as int)[0] == scmds[k as int]);
                    assert(spec_parse_cmd(scmds[k as int], today) == Err::<Event, ParseError>(e));
                    assert(spec_parse_batch(scmds.skip(k as int), today) == Err::<
                        Seq<Event>,
                        ParseError,
                    >(e));
                    assert(spec_parse_batch(scmds, today) == Err::<Seq<Event>, ParseError>(e));
                    assert(spec_parse_events(input@, today) == Err::<Seq<Event>, ParseError>(e));
                }
                return Err(e);
            },
            Ok(ev) => {
                out.push(ev);
            },
        }
        k = k + 1;
    }
    proof {
        lemma_batch_prefix(scmds, today, cmds@.len() as int, out@);
        assert(scmds.skip(cmds@.len() as int) =~= Seq::<Seq<char>>::empty());
        assert(spec_parse_batch(scmds.skip(cmds@.len() as int), today) == Ok::<
            Seq<Event>,
            ParseError,
        >(Seq::empty()));
        assert(out@ + Seq::<Event>::empty() =~= out@);
    }
    Ok(out)
}

/// Every event of a successfully parsed batch is well-formed, given a valid
/// default date.
pub proof fn lemma_parse_batch_wf(cmds: Seq<Seq<char>>, today: Date)
    requires
        today.valid(),
        spec_parse_batch(cmds, today) is Ok,
    ensures
        forall|i: int|
            0 <= i < spec_parse_batch(cmds, today).unwrap().len() ==> (
            #[trigger] spec_parse_batch(cmds, today).unwrap()[i]).wf(),
    decreases cmds.len(),
{
    if cmds.len() > 0 {
        lemma_parse_cmd_wf(cmds[0], today);
        lemma_parse_batch_wf(cmds.skip(1), today);
        let es = spec_parse_batch(cmds, today).unwrap();
        let rest = spec_parse_batch(cmds.skip(1), today).unwrap();
        assert forall|i: int| 0 <= i < es.len() implies (#[trigger] es[i]).wf() by {
            if i == 0 {
                assert(es[0] == spec_parse_cmd(cmds[0], today).unwrap());
            } else {
                assert(es[i] == rest[i - 1]);
            }
        }
    }
}

/// A parsed command is well-formed whenever the supplied default date is
/// valid: the payload shape always matches the type, and any explicit date
/// was checked against the calendar.
pub proof fn lemma_parse_cmd_wf(s: Seq<char>, today: Date)
    requires
        today.valid(),
        spec_parse_cmd(s, today) is Ok,
    ensures
        spec_parse_cmd(s, today).unwrap().wf(),
{
}

} // verus!
