//! The event data model: a closed set of event types, family-specific
//! payloads, and the name and shortcode tables used by the grammar and the
//! journal codec.

use vstd::prelude::*;
use crate::date::Date;
use crate::strutil::str_eq;

verus! {

#[derive(Clone, Copy, Debug, PartialEq, Eq, Hash, Structural)]
pub enum EventType {
    Deadlift,
    Squat,
    FrontSquat,
    Bench,
    Press,
    PosteriorPress,
    CleanAndJerk,
    Snatch,
    Row,
    Curl,
    TricepExtension,
    TricepPushdown,
    Nordic,
    WidePulldown,
    NarrowPulldown,
    FacePull,
    LateralRaise,
    Conditioning,
    Sleep,
    Nutrition,
    WeighIn,
}

#[derive(Clone, Copy, Debug, PartialEq, Eq, Structural)]
pub enum Quality {
    Good,
    NotGood,
}

#[derive(Clone, Copy, Debug, PartialEq, Eq, Structural)]
pub enum Intensity {
    Low,
    Medium,
    High,
}

/// An elapsed-time interval: whole seconds plus subsecond nanoseconds.
#[derive(Clone, Copy, Debug, PartialEq, Eq, Structural)]
pub struct DurationVal {
    pub secs: u64,
    pub nanos: u32,
}

#[derive(Clone, Copy, Debug, PartialEq, Eq, Structural)]
pub enum EventDetails {
    Strength { load: u64, reps: u64 },
    Sleep { quality: Quality, duration: DurationVal },
    Nutrition { quality: Quality },
    Conditioning { intensity: Intensity, duration: DurationVal },
    WeighIn { mass: u64 },
}

/// One observation: a typed, dated payload.
#[derive(Clone, Copy, Debug, PartialEq, Eq, Structural)]
pub struct Event {
    pub event_type: EventType,
    pub details: EventDetails,
    pub date: Date,
}

/// The payload shape that belongs to each event type: the seventeen strength
/// types carry a strength set, the other four carry their own shape.
pub open spec fn details_match(t: EventType, d: EventDetails) -> bool {
    match t {
        EventType::Sleep => d is Sleep,
        EventType::Nutrition => d is Nutrition,
        EventType::Conditioning => d is Conditioning,
        EventType::WeighIn => d is WeighIn,
        _ => d is Strength,
    }
}

impl Event {
    /// Structural invariant: the payload shape matches the type and the date
    /// names a real calendar day.
    pub open spec fn wf(self) -> bool {
        details_match(self.event_type, self.details) && self.date.valid()
    }
}

/// The canonical lowercase name of each event type.
pub open spec fn spec_type_name(t: EventType) -> Seq<char> {
    match t {
        EventType::Deadlift => "deadlift"@,
        EventType::Squat => "squat"@,
        EventType::FrontSquat => "frontsquat"@,
        EventType::Bench => "bench"@,
        EventType::Press => "press"@,
        EventType::PosteriorPress => "posteriorpress"@,
        EventType::CleanAndJerk => "cleanandjerk"@,
        EventType::Snatch => "snatch"@,
        EventType::Row => "row"@,
        EventType::Curl => "curl"@,
        EventType::TricepExtension => "tricepextension"@,
        EventType::TricepPushdown => "triceppushdown"@,
        EventType::Nordic => "nordic"@,
        EventType::WidePulldown => "widepulldown"@,
        EventType::NarrowPulldown => "narrowpulldown"@,
        EventType::FacePull => "facepull"@,
        EventType::LateralRaise => "lateralraise"@,
        EventType::Conditioning => "conditioning"@,
        EventType::Sleep => "sleep"@,
        EventType::Nutrition => "nutrition"@,
        EventType::WeighIn => "weighin"@,
    }
}

pub fn event_type_name(t: EventType) -> (r: &'static str)
    ensures
        r@ == spec_type_name(t),
{
    match t {
        EventType::Deadlift => "deadlift",
        EventType::Squat => "squat",
        EventType::FrontSquat => "frontsquat",
        EventType::Bench => "bench",
        EventType::Press => "press",
        EventType::PosteriorPress => "posteriorpress",
        EventType::CleanAndJerk => "cleanandjerk",
        EventType::Snatch => "snatch",
        EventType::Row => "row",
        EventType::Curl => "curl",
        EventType::TricepExtension => "tricepextension",
        EventType::TricepPushdown => "triceppushdown",
        EventType::Nordic => "nordic",
        EventType::WidePulldown => "widepulldown",
        EventType::NarrowPulldown => "narrowpulldown",
        EventType::FacePull => "facepull",
        EventType::LateralRaise => "lateralraise",
        EventType::Conditioning => "conditioning",
        EventType::Sleep => "sleep",
        EventType::Nutrition => "nutrition",
        EventType::WeighIn => "weighin",
    }
}

/// Which event type a (lowercase, already expanded) tag names, if any.
pub open spec fn spec_name_to_type(n: Seq<char>) -> Option<EventType> {
    if n == spec_type_name(EventType::Deadlift) {
        Some(EventType::Deadlift)
    } else if n == spec_type_name(EventType::Squat) {
        Some(EventType::Squat)
    } else if n == spec_type_name(EventType::FrontSquat) {
        Some(EventType::FrontSquat)
    } else if n == spec_type_name(EventType::Bench) {
        Some(EventType::Bench)
    } else if n == spec_type_name(EventType::Press) {
        Some(EventType::Press)
    } else if n == spec_type_name(EventType::PosteriorPress) {
        Some(EventType::PosteriorPress)
    } else if n == spec_type_name(EventType::CleanAndJerk) {
        Some(EventType::CleanAndJerk)
    } else if n == spec_type_name(EventType::Snatch) {
        Some(EventType::Snatch)
    } else if n == spec_type_name(EventType::Row) {
        Some(EventType::Row)
    } else if n == spec_type_name(EventType::Curl) {
        Some(EventType::Curl)
    } else if n == spec_type_name(EventType::TricepExtension) {
        Some(EventType::TricepExtension)
    } else if n == spec_type_name(EventType::TricepPushdown) {
        Some(EventType::TricepPushdown)
    } else if n == spec_type_name(EventType::Nordic) {
        Some(EventType::Nordic)
    } else if n == spec_type_name(EventType::WidePulldown) {
        Some(EventType::WidePulldown)
    } else if n == spec_type_name(EventType::NarrowPulldown) {
        Some(EventType::NarrowPulldown)
    } else if n == spec_type_name(EventType::FacePull) {
        Some(EventType::FacePull)
    } else if n == spec_type_name(EventType::LateralRaise) {
        Some(EventType::LateralRaise)
    } else if n == spec_type_name(EventType::Conditioning) {
        Some(EventType::Conditioning)
    } else if n == spec_type_name(EventType::Sleep) {
        Some(EventType::Sleep)
    } else if n == spec_type_name(EventType::Nutrition) {
        Some(EventType::Nutrition)
    } else if n == spec_type_name(EventType::WeighIn) {
        Some(EventType::WeighIn)
    } else {
        None
    }
}

pub fn name_to_type(n: &str) -> (r: Option<EventType>)
    ensures
        r == spec_name_to_type(n@),
{
    if str_eq(n, "deadlift") {
        Some(EventType::Deadlift)
    } else if str_eq(n, "squat") {
        Some(EventType::Squat)
    } else if str_eq(n, "frontsquat") {
        Some(EventType::FrontSquat)
    } else if str_eq(n, "bench") {
        Some(EventType::Bench)
    } else if str_eq(n, "press") {
        Some(EventType::Press)
    } else if str_eq(n, "posteriorpress") {
        Some(EventType::PosteriorPress)
    } else if str_eq(n, "cleanandjerk") {
        Some(EventType::CleanAndJerk)
    } else if str_eq(n, "snatch") {
        Some(EventType::Snatch)
    } else if str_eq(n, "row") {
        Some(EventType::Row)
    } else if str_eq(n, "curl") {
        Some(EventType::Curl)
    } else if str_eq(n, "tricepextension") {
        Some(EventType::TricepExtension)
    } else if str_eq(n, "triceppushdown") {
        Some(EventType::TricepPushdown)
    } else if str_eq(n, "nordic") {
        Some(EventType::Nordic)
    } else if str_eq(n, "widepulldown") {
        Some(EventType::WidePulldown)
    } else if str_eq(n, "narrowpulldown") {
        Some(EventType::NarrowPulldown)
    } else if str_eq(n, "facepull") {
        Some(EventType::FacePull)
    } else if str_eq(n, "lateralraise") {
        Some(EventType::LateralRaise)
    } else if str_eq(n, "conditioning") {
        Some(EventType::Conditioning)
    } else if str_eq(n, "sleep") {
        Some(EventType::Sleep)
    } else if str_eq(n, "nutrition") {
        Some(EventType::Nutrition)
    } else if str_eq(n, "weighin") {
        Some(EventType::WeighIn)
    } else {
        None
    }
}

/// Every type name is nonempty, quote-free, and looked up to its own type.
pub proof fn lemma_type_name_props(t: EventType)
    ensures
        spec_name_to_type(spec_type_name(t)) == Some(t),
        spec_type_name(t).len() >= 1,
        forall|k: int| 0 <= k < spec_type_name(t).len() ==> spec_type_name(t)[k] != '"',
{
    reveal_strlit("deadlift");
    reveal_strlit("squat");
    reveal_strlit("frontsquat");
    reveal_strlit("bench");
    reveal_strlit("press");
    reveal_strlit("posteriorpress");
    reveal_strlit("cleanandjerk");
    reveal_strlit("snatch");
    reveal_strlit("row");
    reveal_strlit("curl");
    reveal_strlit("tricepextension");
    reveal_strlit("triceppushdown");
    reveal_strlit("nordic");
    reveal_strlit("widepulldown");
    reveal_strlit("narrowpulldown");
    reveal_strlit("facepull");
    reveal_strlit("lateralraise");
    reveal_strlit("conditioning");
    reveal_strlit("sleep");
    reveal_strlit("nutrition");
    reveal_strlit("weighin");
    assert("deadlift"@.len() == 8);
    assert("squat"@.len() == 5);
    assert("frontsquat"@.len() == 10);
    assert("bench"@.len() == 5);
    assert("press"@.len() == 5);
    assert("posteriorpress"@.len() == 14);
    assert("cleanandjerk"@.len() == 12);
    assert("snatch"@.len() == 6);
    assert("row"@.len() == 3);
    assert("curl"@.len() == 4);
    assert("tricepextension"@.len() == 15);
    assert("triceppushdown"@.len() == 14);
    assert("nordic"@.len() == 6);
    assert("widepulldown"@.len() == 12);
    assert("narrowpulldown"@.len() == 14);
    assert("facepull"@.len() == 8);
    assert("lateralraise"@.len() == 12);
    assert("conditioning"@.len() == 12);
    assert("sleep"@.len() == 5);
    assert("nutrition"@.len() == 9);
    assert("weighin"@.len() == 7);
    assert("squat"@ != "bench"@) by {
        assert("squat"@[0] == 's' && "bench"@[0] == 'b');
    };
    assert("squat"@ != "press"@) by {
        assert("squat"@[0] == 's' && "press"@[0] == 'p');
    };
    assert("sleep"@ != "squat"@) by {
        assert("sleep"@[1] == 'l' && "squat"@[1] == 'q');
    };
    assert("bench"@ != "press"@) by {
        assert("bench"@[0] == 'b' && "press"@[0] == 'p');
    };
    assert("sleep"@ != "bench"@) by {
        assert("sleep"@[0] == 's' && "bench"@[0] == 'b');
    };
    assert("sleep"@ != "press"@) by {
        assert("sleep"@[0] == 's' && "press"@[0] == 'p');
    };
    assert("posteriorpress"@ != "triceppushdown"@) by {
        assert("posteriorpress"@[0] == 'p' && "triceppushdown"@[0] == 't');
    };
    assert("posteriorpress"@ != "narrowpulldown"@) by {
        assert("posteriorpress"@[0] == 'p' && "narrowpulldown"@[0] == 'n');
    };
    assert("triceppushdown"@ != "narrowpulldown"@) by {
        assert("triceppushdown"@[0] == 't' && "narrowpulldown"@[0] == 'n');
    };
    assert("cleanandjerk"@ != "widepulldown"@) by {
        assert("cleanandjerk"@[0] == 'c' && "widepulldown"@[0] == 'w');
    };
    assert("cleanandjerk"@ != "lateralraise"@) by {
        assert("cleanandjerk"@[0] == 'c' && "lateralraise"@[0] == 'l');
    };
    assert("conditioning"@ != "cleanandjerk"@) by {
        assert("conditioning"@[1] == 'o' && "cleanandjerk"@[1] == 'l');
    };
    assert("widepulldown"@ != "lateralraise"@) by {
        assert("widepulldown"@[0] == 'w' && "lateralraise"@[0] == 'l');
    };
    assert("conditioning"@ != "widepulldown"@) by {
        assert("conditioning"@[0] == 'c' && "widepulldown"@[0] == 'w');
    };
    assert("conditioning"@ != "lateralraise"@) by {
        assert("conditioning"@[0] == 'c' && "lateralraise"@[0] == 'l');
    };
    assert("deadlift"@ != "facepull"@) by {
        assert("deadlift"@[0] == 'd' && "facepull"@[0] == 'f');
    };
    assert("snatch"@ != "nordic"@) by {
        assert("snatch"@[0] == 's' && "nordic"@[0] == 'n');
    };
    match t {
        EventType::Deadlift => {
            assert(spec_name_to_type("deadlift"@) == Some(EventType::Deadlift));
        },
        EventType::Squat => {
            assert(spec_name_to_type("squat"@) == Some(EventType::Squat));
        },
        EventType::FrontSquat => {
            assert(spec_name_to_type("frontsquat"@) == Some(EventType::FrontSquat));
        },
        EventType::Bench => {
            assert(spec_name_to_type("bench"@) == Some(EventType::Bench));
        },
        EventType::Press => {
            assert(spec_name_to_type("press"@) == Some(EventType::Press));
        },
        EventType::PosteriorPress => {
            assert(spec_name_to_type("posteriorpress"@) == Some(EventType::PosteriorPress));
        },
        EventType::CleanAndJerk => {
            assert(spec_name_to_type("cleanandjerk"@) == Some(EventType::CleanAndJerk));
        },
        EventType::Snatch => {
            assert(spec_name_to_type("snatch"@) == Some(EventType::Snatch));
        },
        EventType::Row => {
            assert(spec_name_to_type("row"@) == Some(EventType::Row));
        },
        EventType::Curl => {
            assert(spec_name_to_type("curl"@) == Some(EventType::Curl));
        },
        EventType::TricepExtension => {
            assert(spec_name_to_type("tricepextension"@) == Some(EventType::TricepExtension));
        },
        EventType::TricepPushdown => {
            assert(spec_name_to_type("triceppushdown"@) == Some(EventType::TricepPushdown));
        },
        EventType::Nordic => {
            assert(spec_name_to_type("nordic"@) == Some(EventType::Nordic));
        },
        EventType::WidePulldown => {
            assert(spec_name_to_type("widepulldown"@) == Some(EventType::WidePulldown));
        },
        EventType::NarrowPulldown => {
            assert(spec_name_to_type("narrowpulldown"@) == Some(EventType::NarrowPulldown));
        },
        EventType::FacePull => {
            assert(spec_name_to_type("facepull"@) == Some(EventType::FacePull));
        },
        EventType::LateralRaise => {
            assert(spec_name_to_type("lateralraise"@) == Some(EventType::LateralRaise));
        },
        EventType::Conditioning => {
            assert(spec_name_to_type("conditioning"@) == Some(EventType::Conditioning));
        },
        EventType::Sleep => {
            assert(spec_name_to_type("sleep"@) == Some(EventType::Sleep));
        },
        EventType::Nutrition => {
            assert(spec_name_to_type("nutrition"@) == Some(EventType::Nutrition));
        },
        EventType::WeighIn => {
            assert(spec_name_to_type("weighin"@) == Some(EventType::WeighIn));
        },
    }
}

/// A successful type lookup names exactly the looked-up string.
pub proof fn lemma_name_to_type_inverts(n: Seq<char>)
    requires
        spec_name_to_type(n) is Some,
    ensures
        n == spec_type_name(spec_name_to_type(n).unwrap()),
{
}

/// Every quality name is nonempty, quote-free, and looked up to itself.
pub proof fn lemma_quality_name_props(q: Quality)
    ensures
        spec_name_to_quality(spec_quality_name(q)) == Some(q),
        spec_quality_name(q).len() >= 1,
        forall|k: int| 0 <= k < spec_quality_name(q).len() ==> spec_quality_name(q)[k] != '"',
{
    reveal_strlit("good");
    reveal_strlit("notgood");
    assert("good"@.len() == 4);
    assert("notgood"@.len() == 7);
    match q {
        Quality::Good => {
            assert(spec_name_to_quality("good"@) == Some(Quality::Good));
        },
        Quality::NotGood => {
            assert("notgood"@ != "good"@);
            assert(spec_name_to_quality("notgood"@) == Some(Quality::NotGood));
        },
    }
}

pub proof fn lemma_name_to_quality_inverts(n: Seq<char>)
    requires
        spec_name_to_quality(n) is Some,
    ensures
        n == spec_quality_name(spec_name_to_quality(n).unwrap()),
{
}

/// Every intensity name is nonempty, quote-free, and looked up to itself.
pub proof fn lemma_intensity_name_props(v: Intensity)
    ensures
        spec_name_to_intensity(spec_intensity_name(v)) == Some(v),
        spec_intensity_name(v).len() >= 1,
        forall|k: int| 0 <= k < spec_intensity_name(v).len() ==> spec_intensity_name(v)[k] != '"',
{
    reveal_strlit("low");
    reveal_strlit("medium");
    reveal_strlit("high");
    assert("low"@.len() == 3);
    assert("medium"@.len() == 6);
    assert("high"@.len() == 4);
    match v {
        Intensity::Low => {
            assert(spec_name_to_intensity("low"@) == Some(Intensity::Low));
        },
        Intensity::Medium => {
            assert(spec_name_to_intensity("medium"@) == Some(Intensity::Medium));
        },
        Intensity::High => {
            assert(spec_name_to_intensity("high"@) == Some(Intensity::High));
        },
    }
}

pub proof fn lemma_name_to_intensity_inverts(n: Seq<char>)
    requires
        spec_name_to_intensity(n) is Some,
    ensures
        n == spec_intensity_name(spec_name_to_intensity(n).unwrap()),
{
}

/// Expansion of the two-letter shortcodes; any other tag passes through.
pub open spec fn spec_expand(t: Seq<char>) -> Seq<char> {
    if t == "dl"@ {
        "deadlift"@
    } else if t == "sq"@ {
        "squat"@
    } else if t == "fs"@ {
        "frontsquat"@
    } else if t == "bp"@ {
        "bench"@
    } else if t == "pr"@ {
        "press"@
    } else if t == "pp"@ {
        "posteriorpress"@
    } else if t == "cj"@ {
        "cleanandjerk"@
    } else if t == "sn"@ {
        "snatch"@
    } else if t == "ro"@ {
        "row"@
    } else if t == "cu"@ {
        "curl"@
    } else if t == "te"@ {
        "tricepextension"@
    } else if t == "tp"@ {
        "triceppushdown"@
    } else if t == "no"@ {
        "nordic"@
    } else if t == "wp"@ {
        "widepulldown"@
    } else if t == "np"@ {
        "narrowpulldown"@
    } else if t == "fp"@ {
        "facepull"@
    } else if t == "lr"@ {
        "lateralraise"@
    } else if t == "co"@ {
        "conditioning"@
    } else if t == "sl"@ {
        "sleep"@
    } else if t == "nu"@ {
        "nutrition"@
    } else if t == "wi"@ {
        "weighin"@
    } else {
        t
    }
}

pub fn expand_shortcode<'a>(t: &'a str) -> (r: &'a str)
    ensures
        r@ == spec_expand(t@),
{
    if str_eq(t, "dl") {
        "deadlift"
    } else if str_eq(t, "sq") {
        "squat"
    } else if str_eq(t, "fs") {
        "frontsquat"
    } else if str_eq(t, "bp") {
        "bench"
    } else if str_eq(t, "pr") {
        "press"
    } else if str_eq(t, "pp") {
        "posteriorpress"
    } else if str_eq(t, "cj") {
        "cleanandjerk"
    } else if str_eq(t, "sn") {
        "snatch"
    } else if str_eq(t, "ro") {
        "row"
    } else if str_eq(t, "cu") {
        "curl"
    } else if str_eq(t, "te") {
        "tricepextension"
    } else if str_eq(t, "tp") {
        "triceppushdown"
    } else if str_eq(t, "no") {
        "nordic"
    } else if str_eq(t, "wp") {
        "widepulldown"
    } else if str_eq(t, "np") {
        "narrowpulldown"
    } else if str_eq(t, "fp") {
        "facepull"
    } else if str_eq(t, "lr") {
        "lateralraise"
    } else if str_eq(t, "co") {
        "conditioning"
    } else if str_eq(t, "sl") {
        "sleep"
    } else if str_eq(t, "nu") {
        "nutrition"
    } else if str_eq(t, "wi") {
        "weighin"
    } else {
        t
    }
}

/// The rendering of each quality value.
pub open spec fn spec_quality_name(q: Quality) -> Seq<char> {
    match q {
        Quality::Good => "good"@,
        Quality::NotGood => "notgood"@,
    }
}

pub fn quality_name(q: Quality) -> (r: &'static str)
    ensures
        r@ == spec_quality_name(q),
{
    match q {
        Quality::Good => "good",
        Quality::NotGood => "notgood",
    }
}

pub open spec fn spec_name_to_quality(n: Seq<char>) -> Option<Quality> {
    if n == spec_quality_name(Quality::Good) {
        Some(Quality::Good)
    } else if n == spec_quality_name(Quality::NotGood) {
        Some(Quality::NotGood)
    } else {
        None
    }
}

pub fn name_to_quality(n: &str) -> (r: Option<Quality>)
    ensures
        r == spec_name_to_quality(n@),
{
    if str_eq(n, "good") {
        Some(Quality::Good)
    } else if str_eq(n, "notgood") {
        Some(Quality::NotGood)
    } else {
        None
    }
}

/// The rendering of each intensity value.
pub open spec fn spec_intensity_name(v: Intensity) -> Seq<char> {
    match v {
        Intensity::Low => "low"@,
        Intensity::Medium => "medium"@,
        Intensity::High => "high"@,
    }
}

pub fn intensity_name(v: Intensity) -> (r: &'static str)
    ensures
        r@ == spec_intensity_name(v),
{
    match v {
        Intensity::Low => "low",
        Intensity::Medium => "medium",
        Intensity::High => "high",
    }
}

pub open spec fn spec_name_to_intensity(n: Seq<char>) -> Option<Intensity> {
    if n == spec_intensity_name(Intensity::Low) {
        Some(Intensity::Low)
    } else if n == spec_intensity_name(Intensity::Medium) {
        Some(Intensity::Medium)
    } else if n == spec_intensity_name(Intensity::High) {
        Some(Intensity::High)
    } else {
        None
    }
}

pub fn name_to_intensity(n: &str) -> (r: Option<Intensity>)
    ensures
        r == spec_name_to_intensity(n@),
{
    if str_eq(n, "low") {
        Some(Intensity::Low)
    } else if str_eq(n, "medium") {
        Some(Intensity::Medium)
    } else if str_eq(n, "high") {
        Some(Intensity::High)
    } else {
        None
    }
}

} // verus!
