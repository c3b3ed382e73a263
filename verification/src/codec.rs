//! The journal line format: one self-describing record per event, rendered
//! canonically; the deserializer accepts exactly the canonical renderings,
//! so a line round-trips to its event and to nothing else.

use vstd::prelude::*;
use vstd::string::StrSliceExecFns;
use vstd::string::StringExecFns;
use crate::date::spec_render_date;
use crate::date::render_date;
use crate::date::parse_date_field;
use crate::date::lemma_date_round_trip;
use crate::event::Event;
use crate::event::EventType;
use crate::event::EventDetails;
use crate::event::DurationVal;
use crate::event::spec_type_name;
use crate::event::event_type_name;
use crate::event::name_to_type;
use crate::event::spec_quality_name;
use crate::event::quality_name;
use crate::event::name_to_quality;
use crate::event::spec_intensity_name;
use crate::event::intensity_name;
use crate::event::name_to_intensity;
use crate::event::details_match;
use crate::num::spec_digits;
use crate::num::u64_to_string;
use crate::num::is_digit_char;
use crate::num::digits_only;
use crate::num::char_val;
use crate::num::parse_nat_field;
use crate::num::spec_parse_nat;
use crate::num::spec_num_val;
use crate::num::lemma_digits_props;
use crate::num::lemma_canonical_digits;
use crate::event::lemma_type_name_props;
use crate::event::lemma_name_to_type_inverts;
use crate::event::lemma_quality_name_props;
use crate::event::lemma_name_to_quality_inverts;
use crate::event::lemma_intensity_name_props;
use crate::event::lemma_name_to_intensity_inverts;
use crate::event::Quality;
use crate::event::Intensity;
use crate::strutil::matches_at;
use crate::strutil::expect_lit;

verus! {

/// A string in its own double quotes, as the journal format writes names.
pub fn wrap_with_quotes(s: &str) -> (r: String)
    ensures
        r@ == "\""@ + s@ + "\""@,
{
    let mut r = String::from_str("\"");
    r.append(s);
    r.append("\"");
    r
}

/// The rendering of an elapsed-time interval inside a record.
pub open spec fn spec_ser_duration(d: DurationVal) -> Seq<char> {
    "{\"secs\":"@ + spec_digits(d.secs as int) + ",\"nanos\":"@ + spec_digits(d.nanos as int)
        + "}"@
}

/// The rendering of a payload inside a record.
pub open spec fn spec_ser_details(d: EventDetails) -> Seq<char> {
    match d {
        EventDetails::Strength { load, reps } => "{\"load\":"@ + spec_digits(load as int)
            + ",\"reps\":"@ + spec_digits(reps as int) + "}"@,
        EventDetails::Sleep { quality, duration } => "{\"quality\":\""@ + spec_quality_name(
            quality,
        ) + "\",\"duration\":"@ + spec_ser_duration(duration) + "}"@,
        EventDetails::Nutrition { quality } => "{\"quality\":\""@ + spec_quality_name(quality)
            + "\"}"@,
        EventDetails::Conditioning { intensity, duration } => "{\"intensity\":\""@
            + spec_intensity_name(intensity) + "\",\"duration\":"@ + spec_ser_duration(duration)
            + "}"@,
        EventDetails::WeighIn { mass } => "{\"mass\":"@ + spec_digits(mass as int) + "}"@,
    }
}

/// The canonical journal line of an event (without the line terminator).
pub open spec fn spec_ser_event(e: Event) -> Seq<char> {
    "{\"type\":\""@ + spec_type_name(e.event_type) + "\",\"details\":"@ + spec_ser_details(
        e.details,
    ) + ",\"date\":\""@ + spec_render_date(e.date) + "\"}"@
}

fn serialize_duration(d: DurationVal) -> (r: String)
    ensures
        r@ == spec_ser_duration(d),
{
    let mut r = String::from_str("{\"secs\":");
    r.append(u64_to_string(d.secs).as_str());
    r.append(",\"nanos\":");
    r.append(u64_to_string(d.nanos as u64).as_str());
    r.append("}");
    proof {
        assert(r@ =~= spec_ser_duration(d));
    }
    r
}

pub(crate) fn serialize_details(d: &EventDetails) -> (r: String)
    ensures
        r@ == spec_ser_details(*d),
{
    match d {
        EventDetails::Strength { load, reps } => {
            let mut r = String::from_str("{\"load\":");
            r.append(u64_to_string(*load).as_str());
            r.append(",\"reps\":");
            r.append(u64_to_string(*reps).as_str());
            r.append("}");
            proof {
                assert(r@ =~= spec_ser_details(*d));
            }
            r
        },
        EventDetails::Sleep { quality, duration } => {
            let mut r = String::from_str("{\"quality\":\"");
            r.append(quality_name(*quality));
            r.append("\",\"duration\":");
            r.append(serialize_duration(*duration).as_str());
            r.append("}");
            proof {
                assert(r@ =~= spec_ser_details(*d));
            }
            r
        },
        EventDetails::Nutrition { quality } => {
            let mut r = String::from_str("{\"quality\":\"");
            r.append(quality_name(*quality));
            r.append("\"}");
            proof {
                assert(r@ =~= spec_ser_details(*d));
            }
            r
        },
        EventDetails::Conditioning { intensity, duration } => {
            let mut r = String::from_str("{\"intensity\":\"");
            r.append(intensity_name(*intensity));
            r.append("\",\"duration\":");
            r.append(serialize_duration(*duration).as_str());
            r.append("}");
            proof {
                assert(r@ =~= spec_ser_details(*d));
            }
            r
        },
        EventDetails::WeighIn { mass } => {
            let mut r = String::from_str("{\"mass\":");
            r.append(u64_to_string(*mass).as_str());
            r.append("}");
            proof {
                assert(r@ =~= spec_ser_details(*d));
            }
            r
        },
    }
}

pub proof fn lemma_matches_split(s: Seq<char>, i: int, a: Seq<char>, b: Seq<char>)
    requires
        0 <= i,
        matches_at(s, i, a + b),
    ensures
        matches_at(s, i, a),
        matches_at(s, i + a.len(), b),
{
    let w = a + b;
    assert(s.subrange(i, i + w.len() as int) == w);
    assert forall|k: int| 0 <= k < w.len() implies s[i + k] == w[k] by {
        assert(s.subrange(i, i + w.len() as int)[k] == s[i + k]);
    }
    assert(s.subrange(i, i + a.len() as int) =~= a);
    assert forall|k: int|
        0 <= k < b.len() implies s.subrange(i + a.len(), i + a.len() + b.len() as int)[k]
        == b[k] by {
        assert(s[i + a.len() + k] == w[a.len() + k]);
        assert(w[a.len() + k] == b[k]);
    }
    assert(s.subrange(i + a.len(), i + a.len() + b.len() as int) =~= b);
}

pub proof fn lemma_matches_chars(s: Seq<char>, i: int, a: Seq<char>)
    requires
        0 <= i,
        matches_at(s, i, a),
    ensures
        forall|k: int| 0 <= k < a.len() ==> s[i + k] == a[k],
{
    assert forall|k: int| 0 <= k < a.len() implies s[i + k] == a[k] by {
        assert(s.subrange(i, i + a.len() as int)[k] == s[i + k]);
    }
}

/// Renders one event as its canonical journal line.
pub fn serialize_event(e: &Event) -> (r: String)
    requires
        e.wf(),
    ensures
        r@ == spec_ser_event(*e),
{
    let mut r = String::from_str("{\"type\":\"");
    r.append(event_type_name(e.event_type));
    r.append("\",\"details\":");
    r.append(serialize_details(&e.details).as_str());
    r.append(",\"date\":\"");
    r.append(render_date(e.date).as_str());
    r.append("\"}");
    proof {
        assert(r@ =~= spec_ser_event(*e));
    }
    r
}

/// The end of the digit run starting at `i`: everything before it is a
/// digit, and it is the end of the text or a non-digit.
fn digit_run_end(s: &str, i: usize) -> (j: usize)
    requires
        i <= s@.len(),
    ensures
        i <= j <= s@.len(),
        digits_only(s@.subrange(i as int, j as int)),
        forall|k: int| i <= k < j ==> is_digit_char(#[trigger] s@[k]),
        j < s@.len() ==> !is_digit_char(s@[j as int]),
{
    let n = s.unicode_len();
    let mut j = i;
    loop
        invariant
            i <= j <= n,
            n == s@.len(),
            forall|k: int| i <= k < j ==> is_digit_char(#[trigger] s@[k]),
        ensures
            i <= j <= n,
            forall|k: int| i <= k < j ==> is_digit_char(#[trigger] s@[k]),
            j < n ==> !is_digit_char(s@[j as int]),
        decreases n - j,
    {
        if j == n {
            break;
        }
        if char_val(s.get_char(j)).is_none() {
            break;
        }
        j = j + 1;
    }
    proof {
        assert forall|k: int| 0 <= k < (j - i) implies is_digit_char(
            #[trigger] s@.subrange(i as int, j as int)[k],
        ) by {
            assert(s@.subrange(i as int, j as int)[k] == s@[i + k]);
        }
    }
    j
}

/// The canonical numeral of `v` stands at position `i`, delimited on the
/// right by the end of the text or a non-digit.
pub open spec fn spec_number_at(s: Seq<char>, i: int, v: u64) -> bool {
    let d = spec_digits(v as int);
    &&& i + d.len() <= s.len()
    &&& s.subrange(i, i + d.len()) == d
    &&& (i + d.len() < s.len() ==> !is_digit_char(s[i + d.len()]))
}

/// Reads the delimited numeral at `i`, exactly when one stands there.
fn take_number(s: &str, i: usize) -> (r: Option<(u64, usize)>)
    requires
        i <= s@.len(),
    ensures
        r is Some ==> (i < r.unwrap().1 <= s@.len() && s@.subrange(
            i as int,
            r.unwrap().1 as int,
        ) == spec_digits(r.unwrap().0 as int) && (r.unwrap().1 < s@.len()
            ==> !is_digit_char(s@[r.unwrap().1 as int]))),
        forall|v: u64|
            spec_number_at(s@, i as int, v) ==> r == Some(
                (v, (i + spec_digits(v as int).len()) as usize),
            ),
{
    let j = digit_run_end(s, i);
    let ghost run = s@.subrange(i as int, j as int);
    proof {
        assert forall|v: u64| spec_number_at(s@, i as int, v) implies s@.subrange(
            i as int,
            j as int,
        ) == spec_digits(v as int) by {
            let dv = spec_digits(v as int);
            lemma_digits_props(v as int);
            lemma_matches_chars(s@, i as int, dv);
            if i + dv.len() < j {
                assert(is_digit_char(s@[i + dv.len()]));
            }
            if i + dv.len() > j {
                assert(j < s@.len());
                assert(s@[j as int] == dv[j - i]);
                assert(is_digit_char(dv[j - i]));
            }
            assert(i + dv.len() == j);
            assert(run =~= dv);
        }
    }
    if j == i {
        proof {
            assert forall|v: u64| !spec_number_at(s@, i as int, v) by {
                if spec_number_at(s@, i as int, v) {
                    lemma_digits_props(v as int);
                    assert(run.len() == 0);
                }
            }
        }
        return None;
    }
    let sub = s.substring_char(i, j);
    match parse_nat_field(sub) {
        None => {
            proof {
                assert forall|v: u64| !spec_number_at(s@, i as int, v) by {
                    if spec_number_at(s@, i as int, v) {
                        lemma_digits_props(v as int);
                        assert(sub@ == spec_digits(v as int));
                        assert(spec_parse_nat(sub@) is Some);
                    }
                }
            }
            None
        },
        Some(v) => {
            proof {
                assert(sub@.len() >= 1);
                assert(digits_only(sub@));
                assert(sub@[0] != '0' || sub@.len() == 1);
                lemma_canonical_digits(sub@);
                assert(spec_num_val(sub@) == v as int);
                assert(s@.subrange(i as int, j as int) == spec_digits(v as int));
                assert forall|w: u64|
                    spec_number_at(s@, i as int, w) implies (w == v && i + spec_digits(
                    w as int,
                ).len() == j) by {
                    lemma_digits_props(w as int);
                    assert(s@.subrange(i as int, j as int) == spec_digits(w as int));
                    assert(spec_num_val(spec_digits(w as int)) == w as int);
                }
            }
            Some((v, j))
        },
    }
}

/// The first double quote at or after `i`, if any.
pub(crate) fn find_quote(s: &str, i: usize) -> (r: Option<usize>)
    requires
        i <= s@.len(),
    ensures
        r is Some ==> (i <= r.unwrap() < s@.len() && s@[r.unwrap() as int] == '"' && forall|k: int|
            i <= k < r.unwrap() ==> s@[k] != '"'),
        r is None ==> forall|k: int| i <= k < s@.len() ==> s@[k] != '"',
{
    let n = s.unicode_len();
    let mut j = i;
    while j < n
        invariant
            i <= j <= n,
            n == s@.len(),
            forall|k: int| i <= k < j ==> s@[k] != '"',
        decreases n - j,
    {
        if s.get_char(j) == '"' {
            return Some(j);
        }
        j = j + 1;
    }
    None
}

pub proof fn lemma_subrange_join(s: Seq<char>, a: int, b: int, c: int)
    requires
        0 <= a <= b <= c <= s.len(),
    ensures
        s.subrange(a, c) == s.subrange(a, b) + s.subrange(b, c),
{
    assert forall|k: int|
        0 <= k < c - a implies s.subrange(a, c)[k] == (s.subrange(a, b) + s.subrange(b, c))[k] by {
        if k < b - a {
            assert(s.subrange(a, b)[k] == s[a + k]);
        } else {
            assert(s.subrange(b, c)[k - (b - a)] == s[a + k]);
        }
    }
    assert(s.subrange(a, c) =~= s.subrange(a, b) + s.subrange(b, c));
}

/// The name of `q` stands at `i` and a double quote follows it.
pub open spec fn spec_quality_at(s: Seq<char>, i: int, q: Quality) -> bool {
    let nm = spec_quality_name(q);
    i + nm.len() < s.len() && s.subrange(i, i + nm.len()) == nm && s[i + nm.len()] == '"'
}

fn parse_quality_at(s: &str, i: usize) -> (r: Option<(Quality, usize)>)
    requires
        i <= s@.len(),
    ensures
        r is Some ==> (i <= r.unwrap().1 <= s@.len() && s@.subrange(
            i as int,
            r.unwrap().1 as int,
        ) == spec_quality_name(r.unwrap().0)),
        forall|q: Quality|
            spec_quality_at(s@, i as int, q) ==> r == Some(
                (q, (i + spec_quality_name(q).len()) as usize),
            ),
{
    match find_quote(s, i) {
        None => {
            proof {
                assert forall|q: Quality| !spec_quality_at(s@, i as int, q) by {
                    if spec_quality_at(s@, i as int, q) {
                        lemma_quality_name_props(q);
                        assert(s@[i + spec_quality_name(q).len()] == '"');
                    }
                }
            }
            None
        },
        Some(qe) => {
            proof {
                assert forall|q: Quality| spec_quality_at(s@, i as int, q) implies qe == i
                    + spec_quality_name(q).len() by {
                    let nm = spec_quality_name(q);
                    lemma_quality_name_props(q);
                    lemma_matches_chars(s@, i as int, nm);
                    if qe < i + nm.len() {
                        assert(s@[qe as int] == nm[qe - i]);
                    }
                    if qe > i + nm.len() {
                        assert(s@[i + nm.len()] == '"');
                    }
                }
            }
            let sub = s.substring_char(i, qe);
            match name_to_quality(sub) {
                None => {
                    proof {
                        assert forall|q: Quality| !spec_quality_at(s@, i as int, q) by {
                            if spec_quality_at(s@, i as int, q) {
                                lemma_quality_name_props(q);
                                assert(sub@ == spec_quality_name(q));
                            }
                        }
                    }
                    None
                },
                Some(q) => {
                    proof {
                        lemma_name_to_quality_inverts(sub@);
                        assert forall|q2: Quality| spec_quality_at(s@, i as int, q2) implies q2
                            == q by {
                            assert(sub@ == spec_quality_name(q2));
                            lemma_quality_name_props(q2);
                        }
                    }
                    Some((q, qe))
                },
            }
        },
    }
}

/// The name of `v` stands at `i` and a double quote follows it.
pub open spec fn spec_intensity_at(s: Seq<char>, i: int, v: Intensity) -> bool {
    let nm = spec_intensity_name(v);
    i + nm.len() < s.len() && s.subrange(i, i + nm.len()) == nm && s[i + nm.len()] == '"'
}

fn parse_intensity_at(s: &str, i: usize) -> (r: Option<(Intensity, usize)>)
    requires
        i <= s@.len(),
    ensures
        r is Some ==> (i <= r.unwrap().1 <= s@.len() && s@.subrange(
            i as int,
            r.unwrap().1 as int,
        ) == spec_intensity_name(r.unwrap().0)),
        forall|v: Intensity|
            spec_intensity_at(s@, i as int, v) ==> r == Some(
                (v, (i + spec_intensity_name(v).len()) as usize),
            ),
{
    match find_quote(s, i) {
        None => {
            proof {
                assert forall|v: Intensity| !spec_intensity_at(s@, i as int, v) by {
                    if spec_intensity_at(s@, i as int, v) {
                        lemma_intensity_name_props(v);
                        assert(s@[i + spec_intensity_name(v).len()] == '"');
                    }
                }
            }
            None
        },
        Some(qe) => {
            proof {
                assert forall|v: Intensity| spec_intensity_at(s@, i as int, v) implies qe == i
                    + spec_intensity_name(v).len() by {
                    let nm = spec_intensity_name(v);
                    lemma_intensity_name_props(v);
                    lemma_matches_chars(s@, i as int, nm);
                    if qe < i + nm.len() {
                        assert(s@[qe as int] == nm[qe - i]);
                    }
                    if qe > i + nm.len() {
                        assert(s@[i + nm.len()] == '"');
                    }
                }
            }
            let sub = s.substring_char(i, qe);
            match name_to_intensity(sub) {
                None => {
                    proof {
                        assert forall|v: Intensity| !spec_intensity_at(s@, i as int, v) by {
                            if spec_intensity_at(s@, i as int, v) {
                                lemma_intensity_name_props(v);
                                assert(sub@ == spec_intensity_name(v));
                            }
                        }
                    }
                    None
                },
                Some(v) => {
                    proof {
                        lemma_name_to_intensity_inverts(sub@);
                        assert forall|v2: Intensity| spec_intensity_at(s@, i as int, v2) implies v2
                            == v by {
                            assert(sub@ == spec_intensity_name(v2));
                            lemma_intensity_name_props(v2);
                        }
                    }
                    Some((v, qe))
                },
            }
        },
    }
}

/// The rendering of `d` stands at position `i`.
pub open spec fn spec_duration_at(s: Seq<char>, i: int, d: DurationVal) -> bool {
    matches_at(s, i, spec_ser_duration(d))
}

proof fn lemma_duration_layout(s: Seq<char>, i: int, d: DurationVal)
    requires
        0 <= i,
        spec_duration_at(s, i, d),
    ensures
        matches_at(s, i, "{\"secs\":"@),
        spec_number_at(s, i + "{\"secs\":"@.len(), d.secs),
        matches_at(
            s,
            i + "{\"secs\":"@.len() + spec_digits(d.secs as int).len(),
            ",\"nanos\":"@,
        ),
        spec_number_at(
            s,
            i + "{\"secs\":"@.len() + spec_digits(d.secs as int).len() + ",\"nanos\":"@.len(),
            d.nanos as u64,
        ),
        matches_at(
            s,
            i + "{\"secs\":"@.len() + spec_digits(d.secs as int).len() + ",\"nanos\":"@.len()
                + spec_digits(d.nanos as int).len(),
            "}"@,
        ),
        spec_ser_duration(d).len() == "{\"secs\":"@.len() + spec_digits(d.secs as int).len()
            + ",\"nanos\":"@.len() + spec_digits(d.nanos as int).len() + "}"@.len(),
{
    let a = "{\"secs\":"@;
    let ds = spec_digits(d.secs as int);
    let b = ",\"nanos\":"@;
    let dn = spec_digits(d.nanos as int);
    let c = "}"@;
    let w = spec_ser_duration(d);
    assert(w =~= a + (ds + (b + (dn + c))));
    lemma_matches_split(s, i, a, ds + (b + (dn + c)));
    lemma_matches_split(s, i + a.len(), ds, b + (dn + c));
    lemma_matches_split(s, i + a.len() + ds.len(), b, dn + c);
    lemma_matches_split(s, i + a.len() + ds.len() + b.len(), dn, c);
    reveal_strlit(",\"nanos\":");
    reveal_strlit("}");
    lemma_matches_chars(s, i + a.len() + ds.len(), b);
    assert(b[0] == ',');
    assert(s[i + a.len() + ds.len() + 0] == b[0]);
    assert(s[i + a.len() + ds.len()] == ',');
    lemma_matches_chars(s, i + a.len() + ds.len() + b.len() + dn.len(), c);
    assert(c[0] == '}');
    assert(s[i + a.len() + ds.len() + b.len() + dn.len() + 0] == c[0]);
    assert(s[i + a.len() + ds.len() + b.len() + dn.len()] == '}');
    assert(spec_digits((d.nanos as u64) as int) == dn);
}

fn parse_duration_at(s: &str, i: usize) -> (r: Option<(DurationVal, usize)>)
    requires
        i <= s@.len(),
    ensures
        r is Some ==> (i <= r.unwrap().1 <= s@.len() && s@.subrange(
            i as int,
            r.unwrap().1 as int,
        ) == spec_ser_duration(r.unwrap().0)),
        forall|d: DurationVal|
            spec_duration_at(s@, i as int, d) ==> r == Some(
                (d, (i + spec_ser_duration(d).len()) as usize),
            ),
{
    let i1 = match expect_lit(s, i, "{\"secs\":") {
        None => {
            proof {
                assert forall|d: DurationVal| !spec_duration_at(s@, i as int, d) by {
                    if spec_duration_at(s@, i as int, d) {
                        lemma_duration_layout(s@, i as int, d);
                    }
                }
            }
            return None;
        },
        Some(x) => x,
    };
    let (secs, i2) = match take_number(s, i1) {
        None => {
            proof {
                assert forall|d: DurationVal| !spec_duration_at(s@, i as int, d) by {
                    if spec_duration_at(s@, i as int, d) {
                        lemma_duration_layout(s@, i as int, d);
                    }
                }
            }
            return None;
        },
        Some(x) => x,
    };
    let i3 = match expect_lit(s, i2, ",\"nanos\":") {
        None => {
            proof {
                assert forall|d: DurationVal| !spec_duration_at(s@, i as int, d) by {
                    if spec_duration_at(s@, i as int, d) {
                        lemma_duration_layout(s@, i as int, d);
                    }
                }
            }
            return None;
        },
        Some(x) => x,
    };
    let (nv, i4) = match take_number(s, i3) {
        None => {
            proof {
                assert forall|d: DurationVal| !spec_duration_at(s@, i as int, d) by {
                    if spec_duration_at(s@, i as int, d) {
                        lemma_duration_layout(s@, i as int, d);
                    }
                }
            }
            return None;
        },
        Some(x) => x,
    };
    if nv > 4294967295u64 {
        proof {
            assert forall|d: DurationVal| !spec_duration_at(s@, i as int, d) by {
                if spec_duration_at(s@, i as int, d) {
                    lemma_duration_layout(s@, i as int, d);
                }
            }
        }
        return None;
    }
    let i5 = match expect_lit(s, i4, "}") {
        None => {
            proof {
                assert forall|d: DurationVal| !spec_duration_at(s@, i as int, d) by {
                    if spec_duration_at(s@, i as int, d) {
                        lemma_duration_layout(s@, i as int, d);
                    }
                }
            }
            return None;
        },
        Some(x) => x,
    };
    let out = DurationVal { secs, nanos: nv as u32 };
    proof {
        lemma_subrange_join(s@, i as int, i1 as int, i2 as int);
        lemma_subrange_join(s@, i as int, i2 as int, i3 as int);
        lemma_subrange_join(s@, i as int, i3 as int, i4 as int);
        lemma_subrange_join(s@, i as int, i4 as int, i5 as int);
        assert(s@.subrange(i as int, i1 as int) =~= "{\"secs\":"@);
        assert(s@.subrange(i2 as int, i3 as int) =~= ",\"nanos\":"@);
        assert(s@.subrange(i4 as int, i5 as int) =~= "}"@);
        assert(s@.subrange(i as int, i5 as int) =~= spec_ser_duration(out));
        assert forall|d: DurationVal| spec_duration_at(s@, i as int, d) implies d == out && i
            + spec_ser_duration(d).len() == i5 by {
            lemma_duration_layout(s@, i as int, d);
            assert(d.secs == secs);
            assert(d.nanos as u64 == nv);
        }
    }
    Some((out, i5))
}

/// The rendering of payload `d` stands at position `i`.
pub open spec fn spec_details_at(s: Seq<char>, i: int, d: EventDetails) -> bool {
    matches_at(s, i, spec_ser_details(d))
}

proof fn lemma_strength_layout(s: Seq<char>, i: int, load: u64, reps: u64)
    requires
        0 <= i,
        spec_details_at(s, i, EventDetails::Strength { load, reps }),
    ensures
        matches_at(s, i, "{\"load\":"@),
        spec_number_at(s, i + "{\"load\":"@.len(), load),
        matches_at(s, i + "{\"load\":"@.len() + spec_digits(load as int).len(), ",\"reps\":"@),
        spec_number_at(
            s,
            i + "{\"load\":"@.len() + spec_digits(load as int).len() + ",\"reps\":"@.len(),
            reps,
        ),
        matches_at(
            s,
            i + "{\"load\":"@.len() + spec_digits(load as int).len() + ",\"reps\":"@.len()
                + spec_digits(reps as int).len(),
            "}"@,
        ),
        spec_ser_details(EventDetails::Strength { load, reps }).len() == "{\"load\":"@.len()
            + spec_digits(load as int).len() + ",\"reps\":"@.len() + spec_digits(
            reps as int,
        ).len() + "}"@.len(),
{
    let a = "{\"load\":"@;
    let dl = spec_digits(load as int);
    let b = ",\"reps\":"@;
    let dr = spec_digits(reps as int);
    let c = "}"@;
    let w = spec_ser_details(EventDetails::Strength { load, reps });
    assert(w =~= a + (dl + (b + (dr + c))));
    lemma_matches_split(s, i, a, dl + (b + (dr + c)));
    lemma_matches_split(s, i + a.len(), dl, b + (dr + c));
    lemma_matches_split(s, i + a.len() + dl.len(), b, dr + c);
    lemma_matches_split(s, i + a.len() + dl.len() + b.len(), dr, c);
    reveal_strlit(",\"reps\":");
    reveal_strlit("}");
    lemma_matches_chars(s, i + a.len() + dl.len(), b);
    assert(b[0] == ',');
    assert(s[i + a.len() + dl.len() + 0] == b[0]);
    lemma_matches_chars(s, i + a.len() + dl.len() + b.len() + dr.len(), c);
    assert(c[0] == '}');
    assert(s[i + a.len() + dl.len() + b.len() + dr.len() + 0] == c[0]);
}

proof fn lemma_weighin_layout(s: Seq<char>, i: int, mass: u64)
    requires
        0 <= i,
        spec_details_at(s, i, EventDetails::WeighIn { mass }),
    ensures
        matches_at(s, i, "{\"mass\":"@),
        spec_number_at(s, i + "{\"mass\":"@.len(), mass),
        matches_at(s, i + "{\"mass\":"@.len() + spec_digits(mass as int).len(), "}"@),
        spec_ser_details(EventDetails::WeighIn { mass }).len() == "{\"mass\":"@.len()
            + spec_digits(mass as int).len() + "}"@.len(),
{
    let a = "{\"mass\":"@;
    let dm = spec_digits(mass as int);
    let c = "}"@;
    let w = spec_ser_details(EventDetails::WeighIn { mass });
    assert(w =~= a + (dm + c));
    lemma_matches_split(s, i, a, dm + c);
    lemma_matches_split(s, i + a.len(), dm, c);
    reveal_strlit("}");
    lemma_matches_chars(s, i + a.len() + dm.len(), c);
    assert(c[0] == '}');
    assert(s[i + a.len() + dm.len() + 0] == c[0]);
}

proof fn lemma_sleep_layout(s: Seq<char>, i: int, q: Quality, dv: DurationVal)
    requires
        0 <= i,
        spec_details_at(s, i, EventDetails::Sleep { quality: q, duration: dv }),
    ensures
        matches_at(s, i, "{\"quality\":\""@),
        spec_quality_at(s, i + "{\"quality\":\""@.len(), q),
        matches_at(
            s,
            i + "{\"quality\":\""@.len() + spec_quality_name(q).len(),
            "\",\"duration\":"@,
        ),
        spec_duration_at(
            s,
            i + "{\"quality\":\""@.len() + spec_quality_name(q).len()
                + "\",\"duration\":"@.len(),
            dv,
        ),
        matches_at(
            s,
            i + "{\"quality\":\""@.len() + spec_quality_name(q).len()
                + "\",\"duration\":"@.len() + spec_ser_duration(dv).len(),
            "}"@,
        ),
        spec_ser_details(EventDetails::Sleep { quality: q, duration: dv }).len()
            == "{\"quality\":\""@.len() + spec_quality_name(q).len()
            + "\",\"duration\":"@.len() + spec_ser_duration(dv).len() + "}"@.len(),
{
    let a = "{\"quality\":\""@;
    let qn = spec_quality_name(q);
    let b = "\",\"duration\":"@;
    let dd = spec_ser_duration(dv);
    let c = "}"@;
    let w = spec_ser_details(EventDetails::Sleep { quality: q, duration: dv });
    assert(w =~= a + (qn + (b + (dd + c))));
    lemma_matches_split(s, i, a, qn + (b + (dd + c)));
    lemma_matches_split(s, i + a.len(), qn, b + (dd + c));
    lemma_matches_split(s, i + a.len() + qn.len(), b, dd + c);
    lemma_matches_split(s, i + a.len() + qn.len() + b.len(), dd, c);
    reveal_strlit("\",\"duration\":");
    lemma_matches_chars(s, i + a.len() + qn.len(), b);
    assert(b[0] == '"');
    assert(s[i + a.len() + qn.len() + 0] == b[0]);
    assert(s[i + a.len() + qn.len()] == '"');
}

proof fn lemma_nutrition_layout(s: Seq<char>, i: int, q: Quality)
    requires
        0 <= i,
        spec_details_at(s, i, EventDetails::Nutrition { quality: q }),
    ensures
        matches_at(s, i, "{\"quality\":\""@),
        spec_quality_at(s, i + "{\"quality\":\""@.len(), q),
        matches_at(s, i + "{\"quality\":\""@.len() + spec_quality_name(q).len(), "\"}"@),
        spec_ser_details(EventDetails::Nutrition { quality: q }).len() == "{\"quality\":\""@.len()
            + spec_quality_name(q).len() + "\"}"@.len(),
{
    let a = "{\"quality\":\""@;
    let qn = spec_quality_name(q);
    let c = "\"}"@;
    let w = spec_ser_details(EventDetails::Nutrition { quality: q });
    assert(w =~= a + (qn + c));
    lemma_matches_split(s, i, a, qn + c);
    lemma_matches_split(s, i + a.len(), qn, c);
    reveal_strlit("\"}");
    lemma_matches_chars(s, i + a.len() + qn.len(), c);
    assert(c[0] == '"');
    assert(s[i + a.len() + qn.len() + 0] == c[0]);
    assert(s[i + a.len() + qn.len()] == '"');
}

proof fn lemma_conditioning_layout(s: Seq<char>, i: int, v: Intensity, dv: DurationVal)
    requires
        0 <= i,
        spec_details_at(s, i, EventDetails::Conditioning { intensity: v, duration: dv }),
    ensures
        matches_at(s, i, "{\"intensity\":\""@),
        spec_intensity_at(s, i + "{\"intensity\":\""@.len(), v),
        matches_at(
            s,
            i + "{\"intensity\":\""@.len() + spec_intensity_name(v).len(),
            "\",\"duration\":"@,
        ),
        spec_duration_at(
            s,
            i + "{\"intensity\":\""@.len() + spec_intensity_name(v).len()
                + "\",\"duration\":"@.len(),
            dv,
        ),
        matches_at(
            s,
            i + "{\"intensity\":\""@.len() + spec_intensity_name(v).len()
                + "\",\"duration\":"@.len() + spec_ser_duration(dv).len(),
            "}"@,
        ),
        spec_ser_details(EventDetails::Conditioning { intensity: v, duration: dv }).len()
            == "{\"intensity\":\""@.len() + spec_intensity_name(v).len()
            + "\",\"duration\":"@.len() + spec_ser_duration(dv).len() + "}"@.len(),
{
    let a = "{\"intensity\":\""@;
    let vn = spec_intensity_name(v);
    let b = "\",\"duration\":"@;
    let dd = spec_ser_duration(dv);
    let c = "}"@;
    let w = spec_ser_details(EventDetails::Conditioning { intensity: v, duration: dv });
    assert(w =~= a + (vn + (b + (dd + c))));
    lemma_matches_split(s, i, a, vn + (b + (dd + c)));
    lemma_matches_split(s, i + a.len(), vn, b + (dd + c));
    lemma_matches_split(s, i + a.len() + vn.len(), b, dd + c);
    lemma_matches_split(s, i + a.len() + vn.len() + b.len(), dd, c);
    reveal_strlit("\",\"duration\":");
    lemma_matches_chars(s, i + a.len() + vn.len(), b);
    assert(b[0] == '"');
    assert(s[i + a.len() + vn.len() + 0] == b[0]);
    assert(s[i + a.len() + vn.len()] == '"');
}

#[verifier::rlimit(100)]
fn parse_sleep_at(s: &str, i: usize, t: EventType) -> (r: Option<(EventDetails, usize)>)
    requires
        i <= s@.len(),
        t == EventType::Sleep,
    ensures
        r is Some ==> (details_match(t, r.unwrap().0) && i <= r.unwrap().1 <= s@.len()
            && s@.subrange(i as int, r.unwrap().1 as int) == spec_ser_details(r.unwrap().0)),
        forall|d: EventDetails|
            details_match(t, d) && spec_details_at(s@, i as int, d) ==> r == Some(
                (d, (i + spec_ser_details(d).len()) as usize),
            ),
{
            let i1 = match expect_lit(s, i, "{\"quality\":\"") {
                None => {
                    proof {
                        assert forall|d: EventDetails| !(details_match(t, d) && spec_details_at(
                            s@,
                            i as int,
                            d,
                        )) by {
                            if details_match(t, d) && spec_details_at(s@, i as int, d) {
                                match d {
                                    EventDetails::Sleep { quality, duration } => {
                                        lemma_sleep_layout(s@, i as int, quality, duration);
                                    },
                                    _ => {},
                                }
                            }
                        }
                    }
                    return None;
                },
                Some(x) => x,
            };
            let (q, i2) = match parse_quality_at(s, i1) {
                None => {
                    proof {
                        assert forall|d: EventDetails| !(details_match(t, d) && spec_details_at(
                            s@,
                            i as int,
                            d,
                        )) by {
                            if details_match(t, d) && spec_details_at(s@, i as int, d) {
                                match d {
                                    EventDetails::Sleep { quality, duration } => {
                                        lemma_sleep_layout(s@, i as int, quality, duration);
                                    },
                                    _ => {},
                                }
                            }
                        }
                    }
                    return None;
                },
                Some(x) => x,
            };
            let i3 = match expect_lit(s, i2, "\",\"duration\":") {
                None => {
                    proof {
                        assert forall|d: EventDetails| !(details_match(t, d) && spec_details_at(
                            s@,
                            i as int,
                            d,
                        )) by {
                            if details_match(t, d) && spec_details_at(s@, i as int, d) {
                                match d {
                                    EventDetails::Sleep { quality, duration } => {
                                        lemma_sleep_layout(s@, i as int, quality, duration);
                                    },
                                    _ => {},
                                }
                            }
                        }
                    }
                    return None;
                },
                Some(x) => x,
            };
            let (dv, i4) = match parse_duration_at(s, i3) {
                None => {
                    proof {
                        assert forall|d: EventDetails| !(details_match(t, d) && spec_details_at(
                            s@,
                            i as int,
                            d,
                        )) by {
                            if details_match(t, d) && spec_details_at(s@, i as int, d) {
                                match d {
                                    EventDetails::Sleep { quality, duration } => {
                                        lemma_sleep_layout(s@, i as int, quality, duration);
                                    },
                                    _ => {},
                                }
                            }
                        }
                    }
                    return None;
                },
                Some(x) => x,
            };
            let i5 = match expect_lit(s, i4, "}") {
                None => {
                    proof {
                        assert forall|d: EventDetails| !(details_match(t, d) && spec_details_at(
                            s@,
                            i as int,
                            d,
                        )) by {
                            if details_match(t, d) && spec_details_at(s@, i as int, d) {
                                match d {
                                    EventDetails::Sleep { quality, duration } => {
                                        lemma_sleep_layout(s@, i as int, quality, duration);
                                    },
                                    _ => {},
                                }
                            }
                        }
                    }
                    return None;
                },
                Some(x) => x,
            };
            let out = EventDetails::Sleep { quality: q, duration: dv };
            proof {
                lemma_subrange_join(s@, i as int, i1 as int, i2 as int);
                lemma_subrange_join(s@, i as int, i2 as int, i3 as int);
                lemma_subrange_join(s@, i as int, i3 as int, i4 as int);
                lemma_subrange_join(s@, i as int, i4 as int, i5 as int);
                assert(s@.subrange(i as int, i5 as int) =~= spec_ser_details(out));
                assert forall|d: EventDetails|
                    details_match(t, d) && spec_details_at(s@, i as int, d) implies d == out && i
                    + spec_ser_details(d).len() == i5 by {
                    match d {
                        EventDetails::Sleep { quality, duration } => {
                            lemma_sleep_layout(s@, i as int, quality, duration);
                        },
                        _ => {},
                    }
                }
            }
            Some((out, i5))
        }

#[verifier::rlimit(100)]
fn parse_nutrition_at(s: &str, i: usize, t: EventType) -> (r: Option<(EventDetails, usize)>)
    requires
        i <= s@.len(),
        t == EventType::Nutrition,
    ensures
        r is Some ==> (details_match(t, r.unwrap().0) && i <= r.unwrap().1 <= s@.len()
            && s@.subrange(i as int, r.unwrap().1 as int) == spec_ser_details(r.unwrap().0)),
        forall|d: EventDetails|
            details_match(t, d) && spec_details_at(s@, i as int, d) ==> r == Some(
                (d, (i + spec_ser_details(d).len()) as usize),
            ),
{
            let i1 = match expect_lit(s, i, "{\"quality\":\"") {
                None => {
                    proof {
                        assert forall|d: EventDetails| !(details_match(t, d) && spec_details_at(
                            s@,
                            i as int,
                            d,
                        )) by {
                            if details_match(t, d) && spec_details_at(s@, i as int, d) {
                                match d {
                                    EventDetails::Nutrition { quality } => {
                                        lemma_nutrition_layout(s@, i as int, quality);
                                    },
                                    _ => {},
                                }
                            }
                        }
                    }
                    return None;
                },
                Some(x) => x,
            };
            let (q, i2) = match parse_quality_at(s, i1) {
                None => {
                    proof {
                        assert forall|d: EventDetails| !(details_match(t, d) && spec_details_at(
                            s@,
                            i as int,
                            d,
                        )) by {
                            if details_match(t, d) && spec_details_at(s@, i as int, d) {
                                match d {
                                    EventDetails::Nutrition { quality } => {
                                        lemma_nutrition_layout(s@, i as int, quality);
                                    },
                                    _ => {},
                                }
                            }
                        }
                    }
                    return None;
                },
                Some(x) => x,
            };
            let i3 = match expect_lit(s, i2, "\"}") {
                None => {
                    proof {
                        assert forall|d: EventDetails| !(details_match(t, d) && spec_details_at(
                            s@,
                            i as int,
                            d,
                        )) by {
                            if details_match(t, d) && spec_details_at(s@, i as int, d) {
                                match d {
                                    EventDetails::Nutrition { quality } => {
                                        lemma_nutrition_layout(s@, i as int, quality);
                                    },
                                    _ => {},
                                }
                            }
                        }
                    }
                    return None;
                },
                Some(x) => x,
            };
            let out = EventDetails::Nutrition { quality: q };
            proof {
                lemma_subrange_join(s@, i as int, i1 as int, i2 as int);
                lemma_subrange_join(s@, i as int, i2 as int, i3 as int);
                assert(s@.subrange(i as int, i3 as int) =~= spec_ser_details(out));
                assert forall|d: EventDetails|
                    details_match(t, d) && spec_details_at(s@, i as int, d) implies d == out && i
                    + spec_ser_details(d).len() == i3 by {
                    match d {
                        EventDetails::Nutrition { quality } => {
                            lemma_nutrition_layout(s@, i as int, quality);
                        },
                        _ => {},
                    }
                }
            }
            Some((out, i3))
        }

#[verifier::rlimit(100)]
fn parse_conditioning_at(s: &str, i: usize, t: EventType) -> (r: Option<(EventDetails, usize)>)
    requires
        i <= s@.len(),
        t == EventType::Conditioning,
    ensures
        r is Some ==> (details_match(t, r.unwrap().0) && i <= r.unwrap().1 <= s@.len()
            && s@.subrange(i as int, r.unwrap().1 as int) == spec_ser_details(r.unwrap().0)),
        forall|d: EventDetails|
            details_match(t, d) && spec_details_at(s@, i as int, d) ==> r == Some(
                (d, (i + spec_ser_details(d).len()) as usize),
            ),
{
            let i1 = match expect_lit(s, i, "{\"intensity\":\"") {
                None => {
                    proof {
                        assert forall|d: EventDetails| !(details_match(t, d) && spec_details_at(
                            s@,
                            i as int,
                            d,
                        )) by {
                            if details_match(t, d) && spec_details_at(s@, i as int, d) {
                                match d {
                                    EventDetails::Conditioning { intensity, duration } => {
                                        lemma_conditioning_layout(s@, i as int, intensity, duration);
                                    },
                                    _ => {},
                                }
                            }
                        }
                    }
                    return None;
                },
                Some(x) => x,
            };
            let (v, i2) = match parse_intensity_at(s, i1) {
                None => {
                    proof {
                        assert forall|d: EventDetails| !(details_match(t, d) && spec_details_at(
                            s@,
                            i as int,
                            d,
                        )) by {
                            if details_match(t, d) && spec_details_at(s@, i as int, d) {
                                match d {
                                    EventDetails::Conditioning { intensity, duration } => {
                                        lemma_conditioning_layout(s@, i as int, intensity, duration);
                                    },
                                    _ => {},
                                }
                            }
                        }
                    }
                    return None;
                },
                Some(x) => x,
            };
            let i3 = match expect_lit(s, i2, "\",\"duration\":") {
                None => {
                    proof {
                        assert forall|d: EventDetails| !(details_match(t, d) && spec_details_at(
                            s@,
                            i as int,
                            d,
                        )) by {
                            if details_match(t, d) && spec_details_at(s@, i as int, d) {
                                match d {
                                    EventDetails::Conditioning { intensity, duration } => {
                                        lemma_conditioning_layout(s@, i as int, intensity, duration);
                                    },
                                    _ => {},
                                }
                            }
                        }
                    }
                    return None;
                },
                Some(x) => x,
            };
            let (dv, i4) = match parse_duration_at(s, i3) {
                None => {
                    proof {
                        assert forall|d: EventDetails| !(details_match(t, d) && spec_details_at(
                            s@,
                            i as int,
                            d,
                        )) by {
                            if details_match(t, d) && spec_details_at(s@, i as int, d) {
                                match d {
                                    EventDetails::Conditioning { intensity, duration } => {
                                        lemma_conditioning_layout(s@, i as int, intensity, duration);
                                    },
                                    _ => {},
                                }
                            }
                        }
                    }
                    return None;
                },
                Some(x) => x,
            };
            let i5 = match expect_lit(s, i4, "}") {
                None => {
                    proof {
                        assert forall|d: EventDetails| !(details_match(t, d) && spec_details_at(
                            s@,
                            i as int,
                            d,
                        )) by {
                            if details_match(t, d) && spec_details_at(s@, i as int, d) {
                                match d {
                                    EventDetails::Conditioning { intensity, duration } => {
                                        lemma_conditioning_layout(s@, i as int, intensity, duration);
                                    },
                                    _ => {},
                                }
                            }
                        }
                    }
                    return None;
                },
                Some(x) => x,
            };
            let out = EventDetails::Conditioning { intensity: v, duration: dv };
            proof {
                lemma_subrange_join(s@, i as int, i1 as int, i2 as int);
                lemma_subrange_join(s@, i as int, i2 as int, i3 as int);
                lemma_subrange_join(s@, i as int, i3 as int, i4 as int);
                lemma_subrange_join(s@, i as int, i4 as int, i5 as int);
                assert(s@.subrange(i as int, i5 as int) =~= spec_ser_details(out));
                assert forall|d: EventDetails|
                    details_match(t, d) && spec_details_at(s@, i as int, d) implies d == out && i
                    + spec_ser_details(d).len() == i5 by {
                    match d {
                        EventDetails::Conditioning { intensity, duration } => {
                            lemma_conditioning_layout(s@, i as int, intensity, duration);
                        },
                        _ => {},
                    }
                }
            }
            Some((out, i5))
        }

#[verifier::rlimit(100)]
fn parse_weighin_at(s: &str, i: usize, t: EventType) -> (r: Option<(EventDetails, usize)>)
    requires
        i <= s@.len(),
        t == EventType::WeighIn,
    ensures
        r is Some ==> (details_match(t, r.unwrap().0) && i <= r.unwrap().1 <= s@.len()
            && s@.subrange(i as int, r.unwrap().1 as int) == spec_ser_details(r.unwrap().0)),
        forall|d: EventDetails|
            details_match(t, d) && spec_details_at(s@, i as int, d) ==> r == Some(
                (d, (i + spec_ser_details(d).len()) as usize),
            ),
{
            let i1 = match expect_lit(s, i, "{\"mass\":") {
                None => {
                    proof {
                        assert forall|d: EventDetails| !(details_match(t, d) && spec_details_at(
                            s@,
                            i as int,
                            d,
                        )) by {
                            if details_match(t, d) && spec_details_at(s@, i as int, d) {
                                match d {
                                    EventDetails::WeighIn { mass: m2 } => {
                                        lemma_weighin_layout(s@, i as int, m2);
                                    },
                                    _ => {},
                                }
                            }
                        }
                    }
                    return None;
                },
                Some(x) => x,
            };
            let (mass, i2) = match take_number(s, i1) {
                None => {
                    proof {
                        assert forall|d: EventDetails| !(details_match(t, d) && spec_details_at(
                            s@,
                            i as int,
                            d,
                        )) by {
                            if details_match(t, d) && spec_details_at(s@, i as int, d) {
                                match d {
                                    EventDetails::WeighIn { mass: m2 } => {
                                        lemma_weighin_layout(s@, i as int, m2);
                                    },
                                    _ => {},
                                }
                            }
                        }
                    }
                    return None;
                },
                Some(x) => x,
            };
            let i3 = match expect_lit(s, i2, "}") {
                None => {
                    proof {
                        assert forall|d: EventDetails| !(details_match(t, d) && spec_details_at(
                            s@,
                            i as int,
                            d,
                        )) by {
                            if details_match(t, d) && spec_details_at(s@, i as int, d) {
                                match d {
                                    EventDetails::WeighIn { mass: m2 } => {
                                        lemma_weighin_layout(s@, i as int, m2);
                                    },
                                    _ => {},
                                }
                            }
                        }
                    }
                    return None;
                },
                Some(x) => x,
            };
            let out = EventDetails::WeighIn { mass };
            proof {
                lemma_subrange_join(s@, i as int, i1 as int, i2 as int);
                lemma_subrange_join(s@, i as int, i2 as int, i3 as int);
                assert(s@.subrange(i as int, i3 as int) =~= spec_ser_details(out));
                assert forall|d: EventDetails|
                    details_match(t, d) && spec_details_at(s@, i as int, d) implies d == out && i
                    + spec_ser_details(d).len() == i3 by {
                    match d {
                        EventDetails::WeighIn { mass: m2 } => {
                            lemma_weighin_layout(s@, i as int, m2);
                        },
                        _ => {},
                    }
                }
            }
            Some((out, i3))
        }

#[verifier::rlimit(100)]
fn parse_strength_at(s: &str, i: usize, t: EventType) -> (r: Option<(EventDetails, usize)>)
    requires
        i <= s@.len(),
        t != EventType::Sleep,
        t != EventType::Nutrition,
        t != EventType::Conditioning,
        t != EventType::WeighIn,
    ensures
        r is Some ==> (details_match(t, r.unwrap().0) && i <= r.unwrap().1 <= s@.len()
            && s@.subrange(i as int, r.unwrap().1 as int) == spec_ser_details(r.unwrap().0)),
        forall|d: EventDetails|
            details_match(t, d) && spec_details_at(s@, i as int, d) ==> r == Some(
                (d, (i + spec_ser_details(d).len()) as usize),
            ),
{
    let i1 = match expect_lit(s, i, "{\"load\":") {
        None => {
            proof {
                assert forall|d: EventDetails| !(details_match(t, d) && spec_details_at(
                    s@,
                    i as int,
                    d,
                )) by {
                    if details_match(t, d) && spec_details_at(s@, i as int, d) {
                        match d {
                            EventDetails::Strength { load: l2, reps: r2 } => {
                                lemma_strength_layout(s@, i as int, l2, r2);
                            },
                            _ => {},
                        }
                    }
                }
            }
            return None;
        },
        Some(x) => x,
    };
    let (load, i2) = match take_number(s, i1) {
        None => {
            proof {
                assert forall|d: EventDetails| !(details_match(t, d) && spec_details_at(
                    s@,
                    i as int,
                    d,
                )) by {
                    if details_match(t, d) && spec_details_at(s@, i as int, d) {
                        match d {
                            EventDetails::Strength { load: l2, reps: r2 } => {
                                lemma_strength_layout(s@, i as int, l2, r2);
                            },
                            _ => {},
                        }
                    }
                }
            }
            return None;
        },
        Some(x) => x,
    };
    let i3 = match expect_lit(s, i2, ",\"reps\":") {
        None => {
            proof {
                assert forall|d: EventDetails| !(details_match(t, d) && spec_details_at(
                    s@,
                    i as int,
                    d,
                )) by {
                    if details_match(t, d) && spec_details_at(s@, i as int, d) {
                        match d {
                            EventDetails::Strength { load: l2, reps: r2 } => {
                                lemma_strength_layout(s@, i as int, l2, r2);
                            },
                            _ => {},
                        }
                    }
                }
            }
            return None;
        },
        Some(x) => x,
    };
    let (reps, i4) = match take_number(s, i3) {
        None => {
            proof {
                assert forall|d: EventDetails| !(details_match(t, d) && spec_details_at(
                    s@,
                    i as int,
                    d,
                )) by {
                    if details_match(t, d) && spec_details_at(s@, i as int, d) {
                        match d {
                            EventDetails::Strength { load: l2, reps: r2 } => {
                                lemma_strength_layout(s@, i as int, l2, r2);
                            },
                            _ => {},
                        }
                    }
                }
            }
            return None;
        },
        Some(x) => x,
    };
    let i5 = match expect_lit(s, i4, "}") {
        None => {
            proof {
                assert forall|d: EventDetails| !(details_match(t, d) && spec_details_at(
                    s@,
                    i as int,
                    d,
                )) by {
                    if details_match(t, d) && spec_details_at(s@, i as int, d) {
                        match d {
                            EventDetails::Strength { load: l2, reps: r2 } => {
                                lemma_strength_layout(s@, i as int, l2, r2);
                            },
                            _ => {},
                        }
                    }
                }
            }
            return None;
        },
        Some(x) => x,
    };
    let out = EventDetails::Strength { load, reps };
    proof {
        lemma_subrange_join(s@, i as int, i1 as int, i2 as int);
        lemma_subrange_join(s@, i as int, i2 as int, i3 as int);
        lemma_subrange_join(s@, i as int, i3 as int, i4 as int);
        lemma_subrange_join(s@, i as int, i4 as int, i5 as int);
        assert(s@.subrange(i as int, i5 as int) =~= spec_ser_details(out));
        assert forall|d: EventDetails|
            details_match(t, d) && spec_details_at(s@, i as int, d) implies d == out && i
            + spec_ser_details(d).len() == i5 by {
            match d {
                EventDetails::Strength { load: l2, reps: r2 } => {
                    lemma_strength_layout(s@, i as int, l2, r2);
                },
                _ => {},
            }
        }
    }
    Some((out, i5))
}

/// Reads the payload of a type-`t` record at `i`, exactly when the canonical
/// rendering of such a payload stands there.
pub(crate) fn parse_details_at(s: &str, i: usize, t: EventType) -> (r: Option<(EventDetails, usize)>)
    requires
        i <= s@.len(),
    ensures
        r is Some ==> (details_match(t, r.unwrap().0) && i <= r.unwrap().1 <= s@.len()
            && s@.subrange(i as int, r.unwrap().1 as int) == spec_ser_details(r.unwrap().0)),
        forall|d: EventDetails|
            details_match(t, d) && spec_details_at(s@, i as int, d) ==> r == Some(
                (d, (i + spec_ser_details(d).len()) as usize),
            ),
{
    match t {
        EventType::Sleep => parse_sleep_at(s, i, t),
        EventType::Nutrition => parse_nutrition_at(s, i, t),
        EventType::Conditioning => parse_conditioning_at(s, i, t),
        EventType::WeighIn => parse_weighin_at(s, i, t),
        _ => parse_strength_at(s, i, t),
    }
}

/// How a whole canonical line decomposes: the fixed punctuation, the type
/// name (quote-free, then a quote), the payload, the ten date characters,
/// and the closing, accounting for every character.
proof fn lemma_event_layout(s: Seq<char>, e: Event)
    requires
        e.wf(),
        s == spec_ser_event(e),
    ensures
        matches_at(s, 0, "{\"type\":\""@),
        matches_at(s, "{\"type\":\""@.len() as int, spec_type_name(e.event_type)),
        forall|k: int|
            "{\"type\":\""@.len() <= k < "{\"type\":\""@.len() + spec_type_name(
                e.event_type,
            ).len() ==> s[k] != '"',
        "{\"type\":\""@.len() + spec_type_name(e.event_type).len() < s.len(),
        s["{\"type\":\""@.len() as int + spec_type_name(e.event_type).len()] == '"',
        matches_at(
            s,
            "{\"type\":\""@.len() as int + spec_type_name(e.event_type).len(),
            "\",\"details\":"@,
        ),
        spec_details_at(
            s,
            "{\"type\":\""@.len() as int + spec_type_name(e.event_type).len()
                + "\",\"details\":"@.len(),
            e.details,
        ),
        matches_at(
            s,
            "{\"type\":\""@.len() as int + spec_type_name(e.event_type).len()
                + "\",\"details\":"@.len() + spec_ser_details(e.details).len(),
            ",\"date\":\""@,
        ),
        matches_at(
            s,
            "{\"type\":\""@.len() as int + spec_type_name(e.event_type).len()
                + "\",\"details\":"@.len() + spec_ser_details(e.details).len()
                + ",\"date\":\""@.len(),
            spec_render_date(e.date),
        ),
        spec_render_date(e.date).len() == 10,
        matches_at(
            s,
            "{\"type\":\""@.len() as int + spec_type_name(e.event_type).len()
                + "\",\"details\":"@.len() + spec_ser_details(e.details).len()
                + ",\"date\":\""@.len() + 10,
            "\"}"@,
        ),
        s.len() == "{\"type\":\""@.len() + spec_type_name(e.event_type).len()
            + "\",\"details\":"@.len() + spec_ser_details(e.details).len() + ",\"date\":\""@.len()
            + 10 + "\"}"@.len(),
{
    let l0 = "{\"type\":\""@;
    let nm = spec_type_name(e.event_type);
    let l1 = "\",\"details\":"@;
    let det = spec_ser_details(e.details);
    let l2 = ",\"date\":\""@;
    let dt = spec_render_date(e.date);
    let l3 = "\"}"@;
    assert(s =~= l0 + (nm + (l1 + (det + (l2 + (dt + l3))))));
    assert(s.subrange(0, s.len() as int) =~= s);
    assert(matches_at(s, 0, l0 + (nm + (l1 + (det + (l2 + (dt + l3)))))));
    lemma_matches_split(s, 0, l0, nm + (l1 + (det + (l2 + (dt + l3)))));
    lemma_matches_split(s, l0.len() as int, nm, l1 + (det + (l2 + (dt + l3))));
    lemma_matches_split(s, l0.len() as int + nm.len(), l1, det + (l2 + (dt + l3)));
    lemma_matches_split(s, l0.len() as int + nm.len() + l1.len(), det, l2 + (dt + l3));
    lemma_matches_split(s, l0.len() as int + nm.len() + l1.len() + det.len(), l2, dt + l3);
    lemma_matches_split(s, l0.len() as int + nm.len() + l1.len() + det.len() + l2.len(), dt, l3);
    lemma_type_name_props(e.event_type);
    lemma_matches_chars(s, l0.len() as int, nm);
    assert forall|k: int| l0.len() <= k < l0.len() + nm.len() implies s[k] != '"' by {
        assert(s[l0.len() as int + (k - l0.len())] == nm[k - l0.len()]);
    }
    reveal_strlit("\",\"details\":");
    lemma_matches_chars(s, l0.len() as int + nm.len(), l1);
    assert(l1[0] == '"');
    assert(s[l0.len() as int + nm.len() + 0] == l1[0]);
    assert(s[l0.len() as int + nm.len()] == '"');
}

/// Reads one journal line back. It succeeds on exactly the canonical
/// renderings of well-formed events: any line equal to `spec_ser_event(e)`
/// yields `Some(e)` (the serialization round trip), and whatever it accepts
/// it re-renders to the very same line.
#[verifier::rlimit(100)]
pub fn deserialize_event(s: &str) -> (r: Option<Event>)
    ensures
        r is Some ==> (r.unwrap().wf() && s@ == spec_ser_event(r.unwrap())),
        forall|e: Event| e.wf() && s@ == spec_ser_event(e) ==> r == Some(e),
{
    let n = s.unicode_len();
    let i1 = match expect_lit(s, 0, "{\"type\":\"") {
        None => {
            proof {
                assert forall|e: Event| !(e.wf() && s@ == spec_ser_event(e)) by {
                    if e.wf() && s@ == spec_ser_event(e) {
                        lemma_event_layout(s@, e);
                    }
                }
            }
            return None;
        },
        Some(x) => x,
    };
    let q = match find_quote(s, i1) {
        None => {
            proof {
                assert forall|e: Event| !(e.wf() && s@ == spec_ser_event(e)) by {
                    if e.wf() && s@ == spec_ser_event(e) {
                        lemma_event_layout(s@, e);
                    }
                }
            }
            return None;
        },
        Some(x) => x,
    };
    proof {
        assert forall|e: Event| e.wf() && s@ == spec_ser_event(e) implies q == i1
            + spec_type_name(e.event_type).len() by {
            lemma_event_layout(s@, e);
            let nm = spec_type_name(e.event_type);
            if q < i1 + nm.len() {
                assert(s@[q as int] != '"');
            }
            if q > i1 + nm.len() {
                assert(s@[i1 + nm.len()] == '"');
            }
        }
    }
    let tname = s.substring_char(i1, q);
    let t = match name_to_type(tname) {
        None => {
            proof {
                assert forall|e: Event| !(e.wf() && s@ == spec_ser_event(e)) by {
                    if e.wf() && s@ == spec_ser_event(e) {
                        lemma_event_layout(s@, e);
                        lemma_type_name_props(e.event_type);
                        assert(tname@ == spec_type_name(e.event_type));
                    }
                }
            }
            return None;
        },
        Some(x) => x,
    };
    proof {
        lemma_name_to_type_inverts(tname@);
        assert(tname@ == spec_type_name(t));
        assert forall|e: Event| e.wf() && s@ == spec_ser_event(e) implies e.event_type == t by {
            lemma_event_layout(s@, e);
            lemma_type_name_props(e.event_type);
            assert(tname@ == spec_type_name(e.event_type));
        }
    }
    let i2 = match expect_lit(s, q, "\",\"details\":") {
        None => {
            proof {
                assert forall|e: Event| !(e.wf() && s@ == spec_ser_event(e)) by {
                    if e.wf() && s@ == spec_ser_event(e) {
                        lemma_event_layout(s@, e);
                    }
                }
            }
            return None;
        },
        Some(x) => x,
    };
    let (details, i3) = match parse_details_at(s, i2, t) {
        None => {
            proof {
                assert forall|e: Event| !(e.wf() && s@ == spec_ser_event(e)) by {
                    if e.wf() && s@ == spec_ser_event(e) {
                        lemma_event_layout(s@, e);
                    }
                }
            }
            return None;
        },
        Some(x) => x,
    };
    let i4 = match expect_lit(s, i3, ",\"date\":\"") {
        None => {
            proof {
                assert forall|e: Event| !(e.wf() && s@ == spec_ser_event(e)) by {
                    if e.wf() && s@ == spec_ser_event(e) {
                        lemma_event_layout(s@, e);
                    }
                }
            }
            return None;
        },
        Some(x) => x,
    };
    if n - i4 < 10 {
        proof {
            assert forall|e: Event| !(e.wf() && s@ == spec_ser_event(e)) by {
                if e.wf() && s@ == spec_ser_event(e) {
                    lemma_event_layout(s@, e);
                }
            }
        }
        return None;
    }
    let dsub = s.substring_char(i4, i4 + 10);
    let date = match parse_date_field(dsub) {
        None => {
            proof {
                assert forall|e: Event| !(e.wf() && s@ == spec_ser_event(e)) by {
                    if e.wf() && s@ == spec_ser_event(e) {
                        lemma_event_layout(s@, e);
                        lemma_date_round_trip(e.date);
                        assert(dsub@ == spec_render_date(e.date));
                    }
                }
            }
            return None;
        },
        Some(x) => x,
    };
    let i5 = i4 + 10;
    let i6 = match expect_lit(s, i5, "\"}") {
        None => {
            proof {
                assert forall|e: Event| !(e.wf() && s@ == spec_ser_event(e)) by {
                    if e.wf() && s@ == spec_ser_event(e) {
                        lemma_event_layout(s@, e);
                    }
                }
            }
            return None;
        },
        Some(x) => x,
    };
    if i6 != n {
        proof {
            assert forall|e: Event| !(e.wf() && s@ == spec_ser_event(e)) by {
                if e.wf() && s@ == spec_ser_event(e) {
                    lemma_event_layout(s@, e);
                }
            }
        }
        return None;
    }
    let out = Event { event_type: t, details, date };
    proof {
        crate::date::lemma_date_parse_render(dsub@);
        assert(dsub@ == spec_render_date(date));
        assert(date.valid());
        assert(out.wf());
        lemma_subrange_join(s@, 0, i1 as int, q as int);
        lemma_subrange_join(s@, 0, q as int, i2 as int);
        lemma_subrange_join(s@, 0, i2 as int, i3 as int);
        lemma_subrange_join(s@, 0, i3 as int, i4 as int);
        lemma_subrange_join(s@, 0, i4 as int, i5 as int);
        lemma_subrange_join(s@, 0, i5 as int, i6 as int);
        assert(s@.subrange(0, n as int) =~= s@);
        assert(s@ =~= spec_ser_event(out));
        assert forall|e: Event| e.wf() && s@ == spec_ser_event(e) implies e == out by {
            lemma_event_layout(s@, e);
            assert(e.event_type == t);
            assert(spec_details_at(s@, i2 as int, e.details));
            assert(e.details == details);
            lemma_date_round_trip(e.date);
            assert(dsub@ == spec_render_date(e.date));
            assert(e.date == date);
        }
    }
    Some(out)
}

} // verus!
