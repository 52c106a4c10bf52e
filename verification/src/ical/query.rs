//! Whether a calendar object matches the filter of a calendar query
//! (RFC 4791, section 9.7), with the time-range rules of section 9.9.
use vstd::prelude::*;

use super::model::{IcalComponent, IcalParam, IcalProperty};
use super::parser::{date_time, date_time_of, delta_ok, dur_value_of, int_at, try_dur_value, DurStep, MAX_DELTA_SECS};
use crate::dav::caltypes::{
    component_name, utc_le, utc_less, utc_lt, utc_not_after, CompFilter, CompFilterMatch, CompFilterRules,
    Component, ParamFilter, ParamFilterMatch, PropFilter, PropFilterMatch, PropFilterRules, TextMatch, TimeOrText,
    TimeRange, UtcTime,
};
use crate::text::{chars_of, str_eq};

verus! {

/// The earliest time `chrono` represents (`DateTime::<Utc>::MIN_UTC`), in
/// seconds since the UNIX epoch.
pub const MIN_UTC_SECS: i64 = -8334601228800;

/// The latest second `chrono` represents (`DateTime::<Utc>::MAX_UTC`), in
/// seconds since the UNIX epoch.
pub const MAX_UTC_SECS: i64 = 8210266876799;

/// The earliest time point.
pub open spec fn min_utc() -> UtcTime {
    UtcTime { secs: MIN_UTC_SECS, nanos: 0 }
}

/// The latest time point.
pub open spec fn max_utc() -> UtcTime {
    UtcTime { secs: MAX_UTC_SECS, nanos: 999999999 }
}

/// A time point moved by `d` seconds, as adding a `TimeDelta` to a UTC
/// `DateTime` does: a time inside a leap second leaves it, and a result
/// outside the representable range is none (where `+` panics).
pub open spec fn utc_add(t: UtcTime, d: int) -> Option<UtcTime> {
    let s: int = if t.nanos >= 1000000000 && d < 0 {
        t.secs + 1 + d
    } else {
        t.secs + d
    };
    let n: int = if t.nanos >= 1000000000 && d != 0 {
        t.nanos - 1000000000
    } else {
        t.nanos as int
    };
    if MIN_UTC_SECS <= s <= MAX_UTC_SECS {
        Some(UtcTime { secs: s as i64, nanos: n as u32 })
    } else {
        None
    }
}

/// Adds a number of seconds to a time point; none where it leaves the range.
fn add_secs(t: &UtcTime, d: i64) -> (r: Option<UtcTime>)
    requires
        -MAX_DELTA_SECS <= d <= MAX_DELTA_SECS,
    ensures
        r == utc_add(*t, d as int),
{
    let leap = t.nanos >= 1000000000;
    let s: i128 = if leap && d < 0 {
        t.secs as i128 + 1 + d as i128
    } else {
        t.secs as i128 + d as i128
    };
    let n: u32 = if leap && d != 0 {
        t.nanos - 1000000000
    } else {
        t.nanos
    };
    if MIN_UTC_SECS as i128 <= s && s <= MAX_UTC_SECS as i128 {
        Some(UtcTime { secs: s as i64, nanos: n })
    } else {
        None
    }
}

// ---------------- Finding by name ----------------

/// The position of the first property named `name`, from `i` on.
pub open spec fn first_prop(props: Seq<IcalProperty>, name: Seq<char>, i: int) -> Option<int>
    decreases props.len() - i,
{
    if 0 <= i < props.len() {
        if props[i].name@ == name {
            Some(i)
        } else {
            first_prop(props, name, i + 1)
        }
    } else {
        None
    }
}

/// The first property named `name`.
pub open spec fn find_prop(props: Seq<IcalProperty>, name: Seq<char>) -> Option<IcalProperty> {
    match first_prop(props, name, 0) {
        Some(i) => Some(props[i]),
        None => None,
    }
}

/// The position of the first parameter named `key`, from `i` on.
pub open spec fn first_param(params: Seq<IcalParam>, key: Seq<char>, i: int) -> Option<int>
    decreases params.len() - i,
{
    if 0 <= i < params.len() {
        if params[i].key@ == key {
            Some(i)
        } else {
            first_param(params, key, i + 1)
        }
    } else {
        None
    }
}

/// The first parameter named `key`.
pub open spec fn find_param(params: Seq<IcalParam>, key: Seq<char>) -> Option<IcalParam> {
    match first_param(params, key, 0) {
        Some(i) => Some(params[i]),
        None => None,
    }
}

/// The position of the first component named `name`, from `i` on.
pub open spec fn first_comp(comps: Seq<IcalComponent>, name: Seq<char>, i: int) -> Option<int>
    decreases comps.len() - i,
{
    if 0 <= i < comps.len() {
        if comps[i].name@ == name {
            Some(i)
        } else {
            first_comp(comps, name, i + 1)
        }
    } else {
        None
    }
}

proof fn lemma_first_prop(props: Seq<IcalProperty>, name: Seq<char>, i: int)
    requires
        0 <= i,
    ensures
        first_prop(props, name, i) matches Some(k) ==> i <= k < props.len() && props[k].name@ == name,
    decreases props.len() - i,
{
    if 0 <= i < props.len() && props[i].name@ != name {
        lemma_first_prop(props, name, i + 1);
    }
}

/// The position of the first property named `name`.
fn find_prop_index(props: &Vec<IcalProperty>, name: &str) -> (r: Option<usize>)
    ensures
        r is None <==> first_prop(props@, name@, 0) is None,
        r matches Some(k) ==> first_prop(props@, name@, 0) == Some(k as int) && k < props@.len(),
{
    let mut i: usize = 0;
    while i < props.len()
        invariant
            i <= props@.len(),
            first_prop(props@, name@, 0) == first_prop(props@, name@, i as int),
        decreases props@.len() - i,
    {
        if str_eq(props[i].name.as_str(), name) {
            return Some(i);
        }
        i = i + 1;
    }
    None
}

/// The position of the first parameter named `key`.
fn find_param_index(params: &Vec<IcalParam>, key: &str) -> (r: Option<usize>)
    ensures
        r is None <==> first_param(params@, key@, 0) is None,
        r matches Some(k) ==> first_param(params@, key@, 0) == Some(k as int) && k < params@.len(),
{
    let mut i: usize = 0;
    while i < params.len()
        invariant
            i <= params@.len(),
            first_param(params@, key@, 0) == first_param(params@, key@, i as int),
        decreases params@.len() - i,
    {
        if str_eq(params[i].key.as_str(), key) {
            return Some(i);
        }
        i = i + 1;
    }
    None
}

/// The position of the first component named `name`.
fn find_comp_index(comps: &Vec<IcalComponent>, name: &str) -> (r: Option<usize>)
    ensures
        r is None <==> first_comp(comps@, name@, 0) is None,
        r matches Some(k) ==> first_comp(comps@, name@, 0) == Some(k as int) && k < comps@.len(),
{
    let mut i: usize = 0;
    while i < comps.len()
        invariant
            i <= comps@.len(),
            first_comp(comps@, name@, 0) == first_comp(comps@, name@, i as int),
        decreases comps@.len() - i,
    {
        if str_eq(comps[i].name.as_str(), name) {
            return Some(i);
        }
        i = i + 1;
    }
    None
}

// ---------------- Property values ----------------

/// The date-time the first property named `name` holds, if it is one.
pub open spec fn prop_date_of(props: Seq<IcalProperty>, name: Seq<char>) -> Option<UtcTime> {
    match find_prop(props, name) {
        Some(p) => date_time_of(p.val@),
        None => None,
    }
}

/// The date-time the first property named `name` holds, if it is one.
fn prop_date(props: &Vec<IcalProperty>, name: &str) -> (r: Option<UtcTime>)
    ensures
        r == prop_date_of(props@, name@),
{
    match find_prop_index(props, name) {
        Some(k) => date_time(props[k].val.as_str()),
        None => None,
    }
}

/// The integer a whole text writes, as `str::parse::<i64>` reads it: an
/// optional sign and at least one digit, nothing else, within `i64`.
pub open spec fn parse_i64_of(s: Seq<char>) -> Option<int> {
    match int_at(s, 0) {
        Some((e, v)) => if e == s.len() {
            Some(v)
        } else {
            None
        },
        None => None,
    }
}

/// The integer the first property named `name` holds, if it is one.
pub open spec fn prop_int_of(props: Seq<IcalProperty>, name: Seq<char>) -> Option<int> {
    match find_prop(props, name) {
        Some(p) => parse_i64_of(p.val@),
        None => None,
    }
}

/// Reads a whole text as an `i64`.
fn parse_i64(s: &str) -> (r: Option<i64>)
    ensures
        match parse_i64_of(s@) {
            Some(v) => r == Some(v as i64),
            None => r is None,
        },
{
    let cs = chars_of(s);
    match super::parser::read_int(&cs, 0) {
        Some((e, v)) => if e == cs.len() {
            Some(v)
        } else {
            None
        },
        None => None,
    }
}

/// The integer the first property named `name` holds, if it is one.
fn prop_parse_i64(props: &Vec<IcalProperty>, name: &str) -> (r: Option<i64>)
    ensures
        match prop_int_of(props@, name@) {
            Some(v) => r == Some(v as i64),
            None => r is None,
        },
{
    match find_prop_index(props, name) {
        Some(k) => parse_i64(props[k].val.as_str()),
        None => None,
    }
}

// ---------------- Text matching ----------------

/// Whether `pat` occurs in `s`.
pub open spec fn text_contains(s: Seq<char>, pat: Seq<char>) -> bool {
    exists|i: int| 0 <= i && i + pat.len() <= s.len() && #[trigger] s.subrange(i, i + pat.len()) == pat
}

/// Whether `pat` occurs in `s`, as `str::contains` finds it.
fn contains_text(s: &str, pat: &str) -> (r: bool)
    ensures
        r == text_contains(s@, pat@),
{
    let a = chars_of(s);
    let p = chars_of(pat);
    let n = p.len();
    assert(a@.len() == a.len());
    if n > a.len() {
        proof {
            assert forall|i: int| !(0 <= i && i + pat@.len() <= s@.len() && #[trigger] s@.subrange(i, i + pat@.len()) == pat@) by {}
        }
        return false;
    }
    let last = a.len() - n;
    let mut i: usize = 0;
    while i <= last
        invariant
            a@ == s@,
            p@ == pat@,
            n == p@.len(),
            n <= a@.len() <= usize::MAX,
            last == a@.len() - n,
            i <= last + 1,
            forall|k: int| 0 <= k < i ==> #[trigger] a@.subrange(k, k + n) != p@,
        decreases last + 1 - i,
    {
        let mut j: usize = 0;
        let mut same = true;
        proof {
            assert(a@.subrange(i as int, i as int) == p@.take(0));
        }
        while j < n
            invariant
                j <= n,
                i + n <= a@.len() <= usize::MAX,
                n == p@.len(),
                same == (a@.subrange(i as int, i + j) == p@.take(j as int)),
            decreases n - j,
        {
            if same && a[i + j] != p[j] {
                proof {
                    assert(a@.subrange(i as int, i + j + 1)[j as int] != p@.take(j + 1)[j as int]);
                }
                same = false;
            } else if same {
                proof {
                    assert(a@.subrange(i as int, i + j + 1) == a@.subrange(i as int, i + j).push(a@[i + j]));
                    assert(p@.take(j + 1) == p@.take(j as int).push(p@[j as int]));
                }
            } else {
                proof {
                    if a@.subrange(i as int, i + j + 1) == p@.take(j + 1) {
                        assert(a@.subrange(i as int, i + j + 1).take(j as int) == a@.subrange(i as int, i + j));
                        assert(p@.take(j + 1).take(j as int) == p@.take(j as int));
                    }
                }
            }
            j = j + 1;
        }
        proof {
            assert(p@.take(n as int) == p@);
        }
        if same {
            return true;
        }
        i = i + 1;
    }
    proof {
        assert forall|k: int| !(0 <= k && k + pat@.len() <= s@.len() && #[trigger] s@.subrange(k, k + pat@.len()) == pat@) by {
            if 0 <= k && k + pat@.len() <= s@.len() {
                assert(k < i);
            }
        }
    }
    false
}

/// Whether a value passes a text match: it holds the text, or does not
/// when the match is negated.
pub open spec fn text_match_ok(val: Seq<char>, tm: TextMatch) -> bool {
    match tm.negate_condition {
        Some(true) => !text_contains(val, tm.text@),
        _ => text_contains(val, tm.text@),
    }
}

/// Whether a value passes a text match.
fn text_match(val: &str, tm: &TextMatch) -> (r: bool)
    ensures
        r == text_match_ok(val@, *tm),
{
    match tm.negate_condition {
        Some(true) => !contains_text(val, tm.text.as_str()),
        _ => contains_text(val, tm.text.as_str()),
    }
}

// ---------------- Property filters ----------------

/// Whether a time point lies in a time range (both ends included).
pub open spec fn in_range(tr: TimeRange, d: UtcTime) -> bool {
    match tr {
        TimeRange::OnlyStart(after) => utc_le(after, d),
        TimeRange::OnlyEnd(before) => utc_le(d, before),
        TimeRange::FullRange(after, before) => utc_le(after, d) && utc_le(d, before),
    }
}

/// Whether a parameter filter passes on a property.
pub open spec fn param_filter_ok(prop: IcalProperty, pf: ParamFilter) -> bool {
    match (find_param(prop.params@, pf.name.0@), pf.additional_rules) {
        (Some(_), None) => true,
        (None, None) => false,
        (Some(_), Some(ParamFilterMatch::IsNotDefined)) => false,
        (None, Some(ParamFilterMatch::IsNotDefined)) => true,
        (None, Some(ParamFilterMatch::Match(_))) => false,
        (Some(param), Some(ParamFilterMatch::Match(tm))) => match param.val {
            None => false,
            Some(v) => text_match_ok(v@, tm),
        },
    }
}

/// Whether the value of a property passes a time range or text test.
pub open spec fn value_ok(prop: IcalProperty, t: Option<TimeOrText>) -> bool {
    match t {
        Some(TimeOrText::Time(tr)) => match date_time_of(prop.val@) {
            None => false,
            Some(d) => in_range(tr, d),
        },
        Some(TimeOrText::Text(tm)) => text_match_ok(prop.val@, tm),
        None => true,
    }
}

/// Whether a property filter passes on a list of properties: the first
/// property of its name is tested; a filter without rules asks that it
/// exist, `is-not-defined` that it does not.
pub open spec fn prop_filter_ok(props: Seq<IcalProperty>, f: PropFilter) -> bool {
    match (f.additional_rules, find_prop(props, f.name.0@)) {
        (None, Some(_)) => true,
        (Some(PropFilterRules::IsNotDefined), None) => true,
        (None, None) => false,
        (Some(PropFilterRules::IsNotDefined), Some(_)) => false,
        (Some(PropFilterRules::Match(_)), None) => false,
        (Some(PropFilterRules::Match(pattern)), Some(prop)) => value_ok(prop, pattern.time_or_text) && forall|i: int|
            0 <= i < pattern.param_filter@.len() ==> param_filter_ok(prop, #[trigger] pattern.param_filter@[i]),
    }
}

/// Whether every property filter passes.
pub open spec fn props_match(props: Seq<IcalProperty>, filters: Seq<PropFilter>) -> bool {
    forall|i: int| 0 <= i < filters.len() ==> prop_filter_ok(props, #[trigger] filters[i])
}

/// Whether a parameter filter passes on a property.
fn param_filter_passes(prop: &IcalProperty, pf: &ParamFilter) -> (r: bool)
    ensures
        r == param_filter_ok(*prop, *pf),
{
    let found = find_param_index(&prop.params, pf.name.as_str());
    match (found, &pf.additional_rules) {
        (Some(_), None) => true,
        (None, None) => false,
        (Some(_), Some(ParamFilterMatch::IsNotDefined)) => false,
        (None, Some(ParamFilterMatch::IsNotDefined)) => true,
        (None, Some(ParamFilterMatch::Match(_))) => false,
        (Some(k), Some(ParamFilterMatch::Match(tm))) => match &prop.params[k].val {
            None => false,
            Some(v) => text_match(v.as_str(), tm),
        },
    }
}

/// Whether a property filter passes on a list of properties.
fn prop_filter_passes(props: &Vec<IcalProperty>, f: &PropFilter) -> (r: bool)
    ensures
        r == prop_filter_ok(props@, *f),
{
    let found = find_prop_index(props, f.name.0.as_str());
    match (&f.additional_rules, found) {
        (None, Some(_)) => true,
        (Some(PropFilterRules::IsNotDefined), None) => true,
        (None, None) => false,
        (Some(PropFilterRules::IsNotDefined), Some(_)) => false,
        (Some(PropFilterRules::Match(_)), None) => false,
        (Some(PropFilterRules::Match(pattern)), Some(k)) => {
            let prop = &props[k];
            match &pattern.time_or_text {
                Some(TimeOrText::Time(tr)) => {
                    let d = match date_time(prop.val.as_str()) {
                        None => return false,
                        Some(v) => v,
                    };
                    let ok = match tr {
                        TimeRange::OnlyStart(after) => utc_not_after(after, &d),
                        TimeRange::OnlyEnd(before) => utc_not_after(&d, before),
                        TimeRange::FullRange(after, before) => utc_not_after(after, &d) && utc_not_after(&d, before),
                    };
                    if !ok {
                        return false;
                    }
                },
                Some(TimeOrText::Text(tm)) => {
                    if !text_match(prop.val.as_str(), tm) {
                        return false;
                    }
                },
                None => {},
            }
            let mut i: usize = 0;
            while i < pattern.param_filter.len()
                invariant
                    i <= pattern.param_filter@.len(),
                    find_prop(props@, f.name.0@) == Some(*prop),
                    f.additional_rules == Some(PropFilterRules::Match(*pattern)),
                    value_ok(*prop, pattern.time_or_text),
                    forall|j: int| 0 <= j < i ==> param_filter_ok(*prop, #[trigger] pattern.param_filter@[j]),
                decreases pattern.param_filter@.len() - i,
            {
                if !param_filter_passes(prop, &pattern.param_filter[i]) {
                    return false;
                }
                i = i + 1;
            }
            true
        },
    }
}

/// Whether every property filter passes on the properties: each filter
/// tests the first property of its name.
fn is_properties_match(props: &Vec<IcalProperty>, filters: &Vec<PropFilter>) -> (r: bool)
    ensures
        r == props_match(props@, filters@),
{
    let mut i: usize = 0;
    while i < filters.len()
        invariant
            i <= filters@.len(),
            forall|j: int| 0 <= j < i ==> prop_filter_ok(props@, #[trigger] filters@[j]),
        decreases filters@.len() - i,
    {
        if !prop_filter_passes(props, &filters[i]) {
            return false;
        }
        i = i + 1;
    }
    true
}

} // verus!

verus! {

// ---------------- Alarms ----------------

/// When the trigger of an alarm fires: `None` where computing it leaves the
/// representable time range (where adding the duration overflows), `Some(None)` when
/// the alarm has no usable trigger. A trigger whose `VALUE` parameter says
/// `DATE-TIME` is an absolute date-time; any other trigger is a duration after
/// the parent's `DTEND` when its `RELATED` parameter says `END`, after its
/// `DTSTART` otherwise.
pub open spec fn trigger_of(parent: IcalComponent, props: Seq<IcalProperty>) -> Option<Option<UtcTime>> {
    match find_prop(props, "TRIGGER"@) {
        None => Some(None),
        Some(trig) => {
            let absolute = match find_param(trig.params@, "VALUE"@) {
                Some(p) => match p.val {
                    Some(v) => v@ == "DATE-TIME"@,
                    None => false,
                },
                None => false,
            };
            if absolute {
                Some(prop_date_of(props, "TRIGGER"@))
            } else {
                match dur_value_of(trig.val@) {
                    None => None,
                    Some(None) => Some(None),
                    Some(Some((_, delta))) => {
                        let bound = match find_param(trig.params@, "RELATED"@) {
                            Some(p) => p.val,
                            None => None,
                        };
                        let field = match bound {
                            Some(b) => if b@ == "END"@ {
                                "DTEND"@
                            } else {
                                "DTSTART"@
                            },
                            None => "DTSTART"@,
                        };
                        match prop_date_of(parent.properties@, field) {
                            None => Some(None),
                            Some(pd) => match utc_add(pd, delta) {
                                None => None,
                                Some(t) => Some(Some(t)),
                            },
                        }
                    },
                }
            }
        },
    }
}

/// When the trigger of an alarm fires; see `trigger_of`.
fn resolve_trigger(parent: &IcalComponent, properties: &Vec<IcalProperty>) -> (r: Option<Option<UtcTime>>)
    ensures
        r == trigger_of(*parent, properties@),
{
    let k = match find_prop_index(properties, "TRIGGER") {
        None => return Some(None),
        Some(k) => k,
    };
    let trig = &properties[k];
    let absolute = match find_param_index(&trig.params, "VALUE") {
        Some(j) => match &trig.params[j].val {
            Some(v) => str_eq(v.as_str(), "DATE-TIME"),
            None => false,
        },
        None => false,
    };
    if absolute {
        return Some(prop_date(properties, "TRIGGER"));
    }
    let delta = match try_dur_value(trig.val.as_str()) {
        DurStep::Overflow => return None,
        DurStep::Fail => return Some(None),
        DurStep::Done(_, d) => d,
    };
    let related_end = match find_param_index(&trig.params, "RELATED") {
        Some(j) => match &trig.params[j].val {
            Some(b) => str_eq(b.as_str(), "END"),
            None => false,
        },
        None => false,
    };
    let field = if related_end {
        "DTEND"
    } else {
        "DTSTART"
    };
    proof {
        reveal_strlit("DTEND");
        reveal_strlit("DTSTART");
    }
    let parent_date = match prop_date(&parent.properties, field) {
        Some(v) => v,
        None => return Some(None),
    };
    match add_secs(&parent_date, delta) {
        None => None,
        Some(t) => Some(Some(t)),
    }
}

// ---------------- Time ranges ----------------

/// The two ends of a time range, an open end being the earliest or latest
/// time.
pub open spec fn range_ends(tr: TimeRange) -> (UtcTime, UtcTime) {
    match tr {
        TimeRange::OnlyStart(s) => (s, max_utc()),
        TimeRange::OnlyEnd(e) => (min_utc(), e),
        TimeRange::FullRange(s, e) => (s, e),
    }
}

/// A duration in seconds read from an integer, if it is one.
pub open spec fn secs_delta(d: Option<int>) -> Option<int> {
    match d {
        Some(x) => if delta_ok(x) {
            Some(x)
        } else {
            None
        },
        None => None,
    }
}

/// Whether an event overlaps a time range (RFC 4791, section 9.9): by its
/// end, else its duration, else its start alone. `None` where its start
/// plus its duration leaves the time range.
pub open spec fn event_in_range(props: Seq<IcalProperty>, start: UtcTime, end: UtcTime) -> Option<bool> {
    match prop_date_of(props, "DTSTART"@) {
        None => Some(false),
        Some(dtstart) => {
            let duration = match prop_int_of(props, "DURATION"@) {
                Some(d) => secs_delta(Some(if d < 0 {
                    0
                } else {
                    d
                })),
                None => None,
            };
            match prop_date_of(props, "DTEND"@) {
                Some(dtend) => Some(utc_lt(start, dtend) && utc_lt(dtstart, end)),
                None => match duration {
                    Some(d) => match utc_add(dtstart, d) {
                        None => None,
                        Some(x) => Some(utc_lt(start, x) && utc_lt(dtstart, end)),
                    },
                    None => Some(utc_le(start, dtstart) && utc_lt(dtstart, end)),
                },
            }
        },
    }
}

/// Whether a to-do overlaps a time range (RFC 4791, section 9.9), by its
/// start, duration, due, completion and creation dates. `None` where its
/// start plus its duration leaves the time range.
pub open spec fn todo_in_range(props: Seq<IcalProperty>, start: UtcTime, end: UtcTime) -> Option<bool> {
    let dtstart = prop_date_of(props, "DTSTART"@);
    let due = prop_date_of(props, "DUE"@);
    let completed = prop_date_of(props, "COMPLETED"@);
    let created = prop_date_of(props, "CREATED"@);
    let duration = secs_delta(prop_int_of(props, "DURATION"@));
    match (dtstart, duration, due, completed, created) {
        (Some(ds), Some(d), None, _, _) => match utc_add(ds, d) {
            None => None,
            Some(x) => Some(utc_le(start, x) && (utc_lt(ds, end) || utc_le(x, end))),
        },
        (Some(ds), None, Some(du), _, _) => Some((utc_lt(start, du) || utc_le(start, ds)) && (utc_lt(ds, end)
            || utc_le(du, end))),
        (Some(ds), None, None, _, _) => Some(utc_le(start, ds) && utc_lt(ds, end)),
        (None, None, Some(du), _, _) => Some(utc_lt(start, du) && utc_le(du, end)),
        (None, None, None, Some(co), Some(cr)) => Some((utc_le(start, cr) || utc_le(start, co)) && (utc_le(cr, end)
            || utc_le(co, end))),
        (None, None, None, Some(co), None) => Some(utc_le(start, co) && utc_le(co, end)),
        (None, None, None, None, Some(cr)) => Some(utc_lt(cr, end)),
        _ => Some(true),
    }
}

/// Whether a component of the given type overlaps a time range (RFC 4791,
/// section 9.9): events, to-dos, journals and alarms by their dates;
/// free-busy and other components never. `None` where a date computation
/// leaves the time range.
pub open spec fn in_time_range(
    component: Component,
    parent: IcalComponent,
    props: Seq<IcalProperty>,
    tr: TimeRange,
) -> Option<bool> {
    let (start, end) = range_ends(tr);
    match component {
        Component::VEvent => event_in_range(props, start, end),
        Component::VTodo => todo_in_range(props, start, end),
        Component::VJournal => match prop_date_of(props, "DTSTART"@) {
            Some(ds) => Some(utc_le(start, ds) && utc_lt(ds, end)),
            None => Some(false),
        },
        Component::VAlarm => match trigger_of(parent, props) {
            None => None,
            Some(Some(t)) => Some(utc_le(start, t) && utc_lt(t, end)),
            Some(None) => Some(false),
        },
        _ => Some(false),
    }
}

/// A duration in seconds, if the integer is one.
fn secs_delta_exec(d: Option<i64>) -> (r: Option<i64>)
    ensures
        match secs_delta(match d {
            Some(x) => Some(x as int),
            None => None,
        }) {
            Some(x) => r == Some(x as i64),
            None => r is None,
        },
{
    match d {
        Some(x) => if -MAX_DELTA_SECS <= x && x <= MAX_DELTA_SECS {
            Some(x)
        } else {
            None
        },
        None => None,
    }
}

/// Whether a component overlaps a time range; see `in_time_range`.
fn is_in_time_range(
    component: &Component,
    parent: &IcalComponent,
    properties: &Vec<IcalProperty>,
    time_range: &TimeRange,
) -> (r: Option<bool>)
    ensures
        r == in_time_range(*component, *parent, properties@, *time_range),
{
    let (start, end) = match time_range {
        TimeRange::OnlyStart(s) => (*s, UtcTime { secs: MAX_UTC_SECS, nanos: 999999999 }),
        TimeRange::OnlyEnd(e) => (UtcTime { secs: MIN_UTC_SECS, nanos: 0 }, *e),
        TimeRange::FullRange(s, e) => (*s, *e),
    };
    match component {
        Component::VEvent => {
            let dtstart = match prop_date(properties, "DTSTART") {
                Some(v) => v,
                None => return Some(false),
            };
            let maybe_dtend = prop_date(properties, "DTEND");
            let maybe_duration = match prop_parse_i64(properties, "DURATION") {
                Some(d) => secs_delta_exec(Some(if d < 0 {
                    0
                } else {
                    d
                })),
                None => None,
            };
            match (maybe_dtend, maybe_duration) {
                (Some(dtend), _) => Some(utc_less(&start, &dtend) && utc_less(&dtstart, &end)),
                (None, Some(duration)) => match add_secs(&dtstart, duration) {
                    None => None,
                    Some(x) => Some(utc_less(&start, &x) && utc_less(&dtstart, &end)),
                },
                (None, None) => Some(utc_not_after(&start, &dtstart) && utc_less(&dtstart, &end)),
            }
        },
        Component::VTodo => {
            let maybe_dtstart = prop_date(properties, "DTSTART");
            let maybe_due = prop_date(properties, "DUE");
            let maybe_completed = prop_date(properties, "COMPLETED");
            let maybe_created = prop_date(properties, "CREATED");
            let maybe_duration = secs_delta_exec(prop_parse_i64(properties, "DURATION"));
            match (maybe_dtstart, maybe_duration, maybe_due, maybe_completed, maybe_created) {
                (Some(dtstart), Some(duration), None, _, _) => match add_secs(&dtstart, duration) {
                    None => None,
                    Some(x) => Some(
                        utc_not_after(&start, &x) && (utc_less(&dtstart, &end) || utc_not_after(&x, &end)),
                    ),
                },
                (Some(dtstart), None, Some(due), _, _) => Some(
                    (utc_less(&start, &due) || utc_not_after(&start, &dtstart)) && (utc_less(&dtstart, &end)
                        || utc_not_after(&due, &end)),
                ),
                (Some(dtstart), None, None, _, _) => Some(
                    utc_not_after(&start, &dtstart) && utc_less(&dtstart, &end),
                ),
                (None, None, Some(due), _, _) => Some(utc_less(&start, &due) && utc_not_after(&due, &end)),
                (None, None, None, Some(completed), Some(created)) => Some(
                    (utc_not_after(&start, &created) || utc_not_after(&start, &completed)) && (utc_not_after(
                        &created,
                        &end,
                    ) || utc_not_after(&completed, &end)),
                ),
                (None, None, None, Some(completed), None) => Some(
                    utc_not_after(&start, &completed) && utc_not_after(&completed, &end),
                ),
                (None, None, None, None, Some(created)) => Some(utc_less(&created, &end)),
                _ => Some(true),
            }
        },
        Component::VJournal => match prop_date(properties, "DTSTART") {
            Some(dtstart) => Some(utc_not_after(&start, &dtstart) && utc_less(&dtstart, &end)),
            None => Some(false),
        },
        Component::VFreeBusy => Some(false),
        Component::VAlarm => match resolve_trigger(parent, properties) {
            None => None,
            Some(Some(t)) => Some(utc_not_after(&start, &t) && utc_less(&t, &end)),
            Some(None) => Some(false),
        },
        _ => Some(false),
    }
}

// ---------------- Component filters ----------------

/// Whether a component filter passes on a list of components, the first
/// component of its name being tested: `None` where a date computation
/// leaves the time range. A filter without rules asks that the component
/// exist, `is-not-defined` that it does not; otherwise its time range
/// (against the component's dates, alarms against `parent`), its property
/// filters and its inner component filters must all pass.
pub open spec fn comp_match(parent: IcalComponent, comps: Seq<IcalComponent>, filter: CompFilter) -> Option<bool>
    decreases filter, 0int,
{
    match first_comp(comps, component_name(filter.name), 0) {
        None => match filter.additional_rules {
            Some(CompFilterRules::IsNotDefined) => Some(true),
            _ => Some(false),
        },
        Some(k) => match filter.additional_rules {
            None => Some(true),
            Some(CompFilterRules::IsNotDefined) => Some(false),
            Some(CompFilterRules::Matches(m)) => {
                let c = comps[k];
                let tr_ok = match m.time_range {
                    Some(tr) => in_time_range(filter.name, parent, c.properties@, tr),
                    None => Some(true),
                };
                match tr_ok {
                    None => None,
                    Some(false) => Some(false),
                    Some(true) => if !props_match(c.properties@, m.prop_filter@) {
                        Some(false)
                    } else {
                        all_comp_match(c, m.comp_filter@, 0)
                    },
                }
            },
        },
    }
}

/// Whether the component filters from the `i`-th on all pass on the
/// sub-components of `c`, tested in order until one fails.
pub open spec fn all_comp_match(c: IcalComponent, filters: Seq<CompFilter>, i: int) -> Option<bool>
    decreases filters, filters.len() - i,
{
    if 0 <= i < filters.len() {
        match comp_match(c, c.components@, filters[i]) {
            None => None,
            Some(false) => Some(false),
            Some(true) => all_comp_match(c, filters, i + 1),
        }
    } else {
        Some(true)
    }
}

/// Whether a component filter passes on a list of components; see
/// `comp_match`. Gives nothing where a date computation leaves the time
/// range, where `is_component_match` cannot be called.
fn try_is_component_match(
    parent: &IcalComponent,
    components: &Vec<IcalComponent>,
    filter: &CompFilter,
) -> (r: Option<bool>)
    ensures
        r == comp_match(*parent, components@, *filter),
    decreases filter, 0int,
{
    let found = find_comp_index(components, filter.name.as_str());
    match (found, &filter.additional_rules) {
        (None, Some(CompFilterRules::IsNotDefined)) => Some(true),
        (None, _) => Some(false),
        (Some(_), None) => Some(true),
        (Some(_), Some(CompFilterRules::IsNotDefined)) => Some(false),
        (Some(k), Some(CompFilterRules::Matches(matcher))) => {
            let component = &components[k];
            match &matcher.time_range {
                Some(time_range) => match is_in_time_range(&filter.name, parent, &component.properties, time_range) {
                    None => return None,
                    Some(false) => return Some(false),
                    Some(true) => {},
                },
                None => {},
            }
            if !is_properties_match(&component.properties, &matcher.prop_filter) {
                return Some(false);
            }
            let mut i: usize = 0;
            while i < matcher.comp_filter.len()
                invariant
                    i <= matcher.comp_filter@.len(),
                    filter.additional_rules == Some(CompFilterRules::Matches(*matcher)),
                    comp_match(*parent, components@, *filter) == all_comp_match(
                        *component,
                        matcher.comp_filter@,
                        i as int,
                    ),
                decreases matcher.comp_filter@.len() - i,
            {
                proof {
                    assert(decreases_to!(*filter => matcher.comp_filter@[i as int]));
                }
                match try_is_component_match(component, &component.components, &matcher.comp_filter[i]) {
                    None => return None,
                    Some(false) => return Some(false),
                    Some(true) => {},
                }
                i = i + 1;
            }
            Some(true)
        },
    }
}

/// Whether a component filter passes on a list of components; see
/// `comp_match`. The components must not hold dates whose sums leave the
/// time range.
pub fn is_component_match(parent: &IcalComponent, components: &Vec<IcalComponent>, filter: &CompFilter) -> (r: bool)
    requires
        comp_match(*parent, components@, *filter) is Some,
    ensures
        Some(r) == comp_match(*parent, components@, *filter),
{
    match try_is_component_match(parent, components, filter) {
        Some(b) => b,
        None => false,
    }
}

/// Whether a component filter passes on a list of components, or nothing
/// where a date computation leaves the time range.
pub fn component_match_checked(
    parent: &IcalComponent,
    components: &Vec<IcalComponent>,
    filter: &CompFilter,
) -> (r: Option<bool>)
    ensures
        r == comp_match(*parent, components@, *filter),
{
    match try_is_component_match(parent, components, filter) {
        Some(_) => Some(is_component_match(parent, components, filter)),
        None => None,
    }
}


// ---------------- Laws of the time-range rules ----------------

/// A to-do with a start but neither a duration nor a due date overlaps a
/// time range exactly when it starts inside it: at or after the start of
/// the range and before its end (RFC 4791, section 9.9). A to-do that
/// starts at or after the end of the range never matches.
pub proof fn law_todo_start_only(parent: IcalComponent, props: Seq<IcalProperty>, tr: TimeRange, ds: UtcTime)
    requires
        prop_date_of(props, "DTSTART"@) == Some(ds),
        prop_date_of(props, "DUE"@) is None,
        prop_int_of(props, "DURATION"@) is None,
    ensures
        in_time_range(Component::VTodo, parent, props, tr) == Some(
            utc_le(range_ends(tr).0, ds) && utc_lt(ds, range_ends(tr).1),
        ),
        tr matches TimeRange::FullRange(s, e) ==> in_time_range(Component::VTodo, parent, props, tr) == Some(
            utc_le(s, ds) && utc_lt(ds, e),
        ),
        tr matches TimeRange::FullRange(s, e) && utc_le(e, ds) ==> in_time_range(Component::VTodo, parent, props, tr)
            == Some(false),
{
}

/// A to-do with a start and a duration overlaps a time range when it ends
/// at or after the start of the range and starts before its end, or ends
/// at or before the end of the range (RFC 4791, section 9.9).
pub proof fn law_todo_start_duration(
    parent: IcalComponent,
    props: Seq<IcalProperty>,
    tr: TimeRange,
    ds: UtcTime,
    d: int,
    x: UtcTime,
)
    requires
        prop_date_of(props, "DTSTART"@) == Some(ds),
        prop_date_of(props, "DUE"@) is None,
        prop_int_of(props, "DURATION"@) == Some(d),
        delta_ok(d),
        utc_add(ds, d) == Some(x),
    ensures
        in_time_range(Component::VTodo, parent, props, tr) == Some(
            utc_le(range_ends(tr).0, x) && (utc_lt(ds, range_ends(tr).1) || utc_le(x, range_ends(tr).1)),
        ),
{
}

/// A to-do with a start and a due date overlaps a time range when the
/// range starts before it is due or at or before its start, and it starts
/// before the end of the range or is due at or before it (RFC 4791,
/// section 9.9).
pub proof fn law_todo_start_due(parent: IcalComponent, props: Seq<IcalProperty>, tr: TimeRange, ds: UtcTime, du: UtcTime)
    requires
        prop_date_of(props, "DTSTART"@) == Some(ds),
        prop_date_of(props, "DUE"@) == Some(du),
        prop_int_of(props, "DURATION"@) is None,
    ensures
        in_time_range(Component::VTodo, parent, props, tr) == Some(
            (utc_lt(range_ends(tr).0, du) || utc_le(range_ends(tr).0, ds)) && (utc_lt(ds, range_ends(tr).1) || utc_le(
                du,
                range_ends(tr).1,
            )),
        ),
{
}

/// A to-do with a due date and no start nor duration overlaps a time
/// range when it is due after the start of the range and at or before its
/// end (RFC 4791, section 9.9).
pub proof fn law_todo_due_only(parent: IcalComponent, props: Seq<IcalProperty>, tr: TimeRange, du: UtcTime)
    requires
        prop_date_of(props, "DTSTART"@) is None,
        prop_date_of(props, "DUE"@) == Some(du),
        prop_int_of(props, "DURATION"@) is None,
    ensures
        in_time_range(Component::VTodo, parent, props, tr) == Some(
            utc_lt(range_ends(tr).0, du) && utc_le(du, range_ends(tr).1),
        ),
{
}

/// A to-do with none of a start, a duration and a due date is judged by
/// its completion and creation dates, and matches every range when it has
/// neither (RFC 4791, section 9.9).
pub proof fn law_todo_undated(parent: IcalComponent, props: Seq<IcalProperty>, tr: TimeRange)
    requires
        prop_date_of(props, "DTSTART"@) is None,
        prop_date_of(props, "DUE"@) is None,
        prop_int_of(props, "DURATION"@) is None,
    ensures
        ({
            let (s, e) = range_ends(tr);
            let r = in_time_range(Component::VTodo, parent, props, tr);
            match (prop_date_of(props, "COMPLETED"@), prop_date_of(props, "CREATED"@)) {
                (Some(co), Some(cr)) => r == Some((utc_le(s, cr) || utc_le(s, co)) && (utc_le(cr, e) || utc_le(co, e))),
                (Some(co), None) => r == Some(utc_le(s, co) && utc_le(co, e)),
                (None, Some(cr)) => r == Some(utc_lt(cr, e)),
                (None, None) => r == Some(true),
            }
        }),
{
}

/// An event overlaps a time range by its end when it has one: it ends
/// after the start of the range and starts before its end; without an end
/// nor a duration it must start inside the range; without a start it never
/// matches (RFC 4791, section 9.9).
pub proof fn law_event_in_range(parent: IcalComponent, props: Seq<IcalProperty>, tr: TimeRange)
    ensures
        ({
            let (s, e) = range_ends(tr);
            let r = in_time_range(Component::VEvent, parent, props, tr);
            match (prop_date_of(props, "DTSTART"@), prop_date_of(props, "DTEND"@)) {
                (None, _) => r == Some(false),
                (Some(ds), Some(de)) => r == Some(utc_lt(s, de) && utc_lt(ds, e)),
                (Some(ds), None) => prop_int_of(props, "DURATION"@) is None ==> r == Some(utc_le(s, ds) && utc_lt(ds, e)),
            }
        }),
{
}

/// An event with a start, a positive duration and no end overlaps a time
/// range when it ends after the start of the range and starts before its
/// end (RFC 4791, section 9.9).
pub proof fn law_event_duration(parent: IcalComponent, props: Seq<IcalProperty>, tr: TimeRange, ds: UtcTime, d: int, x: UtcTime)
    requires
        prop_date_of(props, "DTSTART"@) == Some(ds),
        prop_date_of(props, "DTEND"@) is None,
        prop_int_of(props, "DURATION"@) == Some(d),
        0 <= d,
        delta_ok(d),
        utc_add(ds, d) == Some(x),
    ensures
        in_time_range(Component::VEvent, parent, props, tr) == Some(
            utc_lt(range_ends(tr).0, x) && utc_lt(ds, range_ends(tr).1),
        ),
{
}

/// A journal entry overlaps a time range when it starts inside it, and
/// never without a start; a free-busy component never matches (RFC 4791,
/// section 9.9).
pub proof fn law_journal_and_freebusy(parent: IcalComponent, props: Seq<IcalProperty>, tr: TimeRange)
    ensures
        in_time_range(Component::VJournal, parent, props, tr) == match prop_date_of(props, "DTSTART"@) {
            Some(ds) => Some(utc_le(range_ends(tr).0, ds) && utc_lt(ds, range_ends(tr).1)),
            None => Some(false),
        },
        in_time_range(Component::VFreeBusy, parent, props, tr) == Some(false),
{
}

/// The ends of a time range: a full range keeps both, an open end is the
/// earliest or latest time.
pub proof fn law_range_ends(tr: TimeRange)
    ensures
        tr matches TimeRange::FullRange(s, e) ==> range_ends(tr) == (s, e),
        tr matches TimeRange::OnlyStart(s) ==> range_ends(tr) == (s, max_utc()),
        tr matches TimeRange::OnlyEnd(e) ==> range_ends(tr) == (min_utc(), e),
{
}

/// A component filter with a time range passes only on a component of its
/// name that overlaps the range.
pub proof fn law_comp_match_needs_time_range(parent: IcalComponent, comps: Seq<IcalComponent>, filter: CompFilter, m: CompFilterMatch, tr: TimeRange)
    requires
        filter.additional_rules == Some(CompFilterRules::Matches(m)),
        m.time_range == Some(tr),
        comp_match(parent, comps, filter) == Some(true),
    ensures
        first_comp(comps, component_name(filter.name), 0) matches Some(k) && in_time_range(
            filter.name,
            parent,
            comps[k].properties@,
            tr,
        ) == Some(true),
{
}


// ---------------- Laws of the filters ----------------

/// The first property named `name` from `i` on is the first position that
/// bears that name.
proof fn lemma_first_prop_is_first(props: Seq<IcalProperty>, name: Seq<char>, i: int)
    requires
        0 <= i,
    ensures
        first_prop(props, name, i) matches Some(k) ==> i <= k < props.len() && props[k].name@ == name && forall|j: int|
            i <= j < k ==> (#[trigger] props[j]).name@ != name,
        first_prop(props, name, i) is None ==> forall|j: int| i <= j < props.len() ==> (#[trigger] props[j]).name@ != name,
    decreases props.len() - i,
{
    if i < props.len() {
        lemma_first_prop_is_first(props, name, i + 1);
    }
}

/// The first parameter named `key` from `i` on is the first position that
/// bears that name.
proof fn lemma_first_param_is_first(params: Seq<IcalParam>, key: Seq<char>, i: int)
    requires
        0 <= i,
    ensures
        first_param(params, key, i) matches Some(k) ==> i <= k < params.len() && params[k].key@ == key && forall|j: int|
            i <= j < k ==> (#[trigger] params[j]).key@ != key,
        first_param(params, key, i) is None ==> forall|j: int| i <= j < params.len() ==> (#[trigger] params[j]).key@ != key,
    decreases params.len() - i,
{
    if i < params.len() {
        lemma_first_param_is_first(params, key, i + 1);
    }
}

/// The first component named `name` from `i` on is the first position that
/// bears that name.
proof fn lemma_first_comp_is_first(comps: Seq<IcalComponent>, name: Seq<char>, i: int)
    requires
        0 <= i,
    ensures
        first_comp(comps, name, i) matches Some(k) ==> i <= k < comps.len() && comps[k].name@ == name && forall|j: int|
            i <= j < k ==> (#[trigger] comps[j]).name@ != name,
        first_comp(comps, name, i) is None ==> forall|j: int| i <= j < comps.len() ==> (#[trigger] comps[j]).name@ != name,
    decreases comps.len() - i,
{
    if i < comps.len() {
        lemma_first_comp_is_first(comps, name, i + 1);
    }
}

/// A text match passes on a value exactly when the text occurs somewhere
/// in the value, or, when the match is negated, exactly when it does not.
pub proof fn law_text_match(val: Seq<char>, tm: TextMatch)
    ensures
        text_match_ok(val, tm) <==> ((exists|k: int|
            0 <= k && k + tm.text@.len() <= val.len() && #[trigger] val.subrange(k, k + tm.text@.len()) == tm.text@) != (
        tm.negate_condition == Some(true))),
{
}

/// A property filter without rules passes exactly when a property of its
/// name exists, an `is-not-defined` one exactly when none does; one with a
/// match needs such a property, and tests the first of them: its value
/// against the text or time range, its parameters against each parameter
/// filter.
pub proof fn law_prop_filter(props: Seq<IcalProperty>, f: PropFilter)
    ensures
        f.additional_rules is None ==> (prop_filter_ok(props, f) <==> exists|i: int|
            0 <= i < props.len() && (#[trigger] props[i]).name@ == f.name.0@),
        f.additional_rules == Some(PropFilterRules::IsNotDefined) ==> (prop_filter_ok(props, f) <==> forall|i: int|
            0 <= i < props.len() ==> (#[trigger] props[i]).name@ != f.name.0@),
        f.additional_rules matches Some(PropFilterRules::Match(m)) ==> forall|k: int|
            0 <= k < props.len() && (#[trigger] props[k]).name@ == f.name.0@ && (forall|j: int|
                0 <= j < k ==> (#[trigger] props[j]).name@ != f.name.0@) ==> (prop_filter_ok(props, f) <==> value_ok(
                props[k],
                m.time_or_text,
            ) && forall|i: int| 0 <= i < m.param_filter@.len() ==> param_filter_ok(props[k], #[trigger] m.param_filter@[i])),
        (f.additional_rules matches Some(PropFilterRules::Match(_))) ==> (prop_filter_ok(props, f) ==> exists|i: int|
            0 <= i < props.len() && (#[trigger] props[i]).name@ == f.name.0@),
{
    lemma_first_prop_is_first(props, f.name.0@, 0);
    match f.additional_rules { Some(PropFilterRules::Match(m)) => {
    assert forall|k: int|
        0 <= k < props.len() && (#[trigger] props[k]).name@
            == f.name.0@ && (forall|j: int| 0 <= j < k ==> (#[trigger] props[j]).name@ != f.name.0@) implies (
        prop_filter_ok(props, f) <==> value_ok(props[k], m.time_or_text) && forall|i: int|
            0 <= i < m.param_filter@.len() ==> param_filter_ok(props[k], #[trigger] m.param_filter@[i])) by {
        match first_prop(props, f.name.0@, 0) {
            Some(k2) => {
                if k2 < k {
                    assert(props[k2].name@ != f.name.0@);
                } else if k < k2 {
                    assert(props[k].name@ != f.name.0@);
                }
            },
            None => {
                assert(props[k].name@ != f.name.0@);
            },
        }
    }
    }, _ => {}, }
    if f.additional_rules is None || f.additional_rules == Some(PropFilterRules::IsNotDefined) {
        if exists|i: int| 0 <= i < props.len() && (#[trigger] props[i]).name@ == f.name.0@ {
            let i = choose|i: int| 0 <= i < props.len() && (#[trigger] props[i]).name@ == f.name.0@;
            assert(first_prop(props, f.name.0@, 0) is Some);
        }
    }
    if f.additional_rules matches Some(PropFilterRules::Match(_)) {
        if prop_filter_ok(props, f) {
            let k = first_prop(props, f.name.0@, 0)->0;
            assert(props[k].name@ == f.name.0@);
        }
    }
}

/// A parameter filter without rules passes exactly when the property has
/// a parameter of its name, an `is-not-defined` one exactly when it has
/// none; one with a text match tests the value of the first such
/// parameter, and fails on one without a value.
pub proof fn law_param_filter(prop: IcalProperty, pf: ParamFilter)
    ensures
        pf.additional_rules is None ==> (param_filter_ok(prop, pf) <==> exists|i: int|
            0 <= i < prop.params@.len() && (#[trigger] prop.params@[i]).key@ == pf.name.0@),
        pf.additional_rules == Some(ParamFilterMatch::IsNotDefined) ==> (param_filter_ok(prop, pf) <==> forall|i: int|
            0 <= i < prop.params@.len() ==> (#[trigger] prop.params@[i]).key@ != pf.name.0@),
        pf.additional_rules matches Some(ParamFilterMatch::Match(tm)) ==> forall|k: int|
            0 <= k < prop.params@.len() && (#[trigger] prop.params@[k]).key@ == pf.name.0@ && (forall|j: int|
                0 <= j < k ==> (#[trigger] prop.params@[j]).key@ != pf.name.0@) ==> (param_filter_ok(prop, pf) <==> (
            prop.params@[k].val matches Some(v) && text_match_ok(v@, tm))),
{
    let ps = prop.params@;
    lemma_first_param_is_first(ps, pf.name.0@, 0);
    match pf.additional_rules { Some(ParamFilterMatch::Match(tm)) => {
    assert forall|k: int|
        0 <= k < ps.len() && (#[trigger] ps[k]).key@
            == pf.name.0@ && (forall|j: int| 0 <= j < k ==> (#[trigger] ps[j]).key@ != pf.name.0@) implies (
        param_filter_ok(prop, pf) <==> (ps[k].val matches Some(v) && text_match_ok(v@, tm))) by {
        match first_param(ps, pf.name.0@, 0) {
            Some(k2) => {
                if k2 < k {
                    assert(ps[k2].key@ != pf.name.0@);
                } else if k < k2 {
                    assert(ps[k].key@ != pf.name.0@);
                }
            },
            None => {
                assert(ps[k].key@ != pf.name.0@);
            },
        }
    }
    }, _ => {}, }
    if exists|i: int| 0 <= i < ps.len() && (#[trigger] ps[i]).key@ == pf.name.0@ {
        let i = choose|i: int| 0 <= i < ps.len() && (#[trigger] ps[i]).key@ == pf.name.0@;
        assert(first_param(ps, pf.name.0@, 0) is Some);
    }
}

/// A component filter without rules passes exactly when a component of
/// its name exists, an `is-not-defined` one exactly when none does, and
/// one with rules fails when there is no such component.
pub proof fn law_comp_filter_presence(parent: IcalComponent, comps: Seq<IcalComponent>, filter: CompFilter)
    ensures
        filter.additional_rules is None ==> comp_match(parent, comps, filter) == Some(
            exists|i: int| 0 <= i < comps.len() && (#[trigger] comps[i]).name@ == component_name(filter.name),
        ),
        filter.additional_rules == Some(CompFilterRules::IsNotDefined) ==> comp_match(parent, comps, filter) == Some(
            forall|i: int| 0 <= i < comps.len() ==> (#[trigger] comps[i]).name@ != component_name(filter.name),
        ),
        (filter.additional_rules matches Some(CompFilterRules::Matches(_))) ==> ((forall|i: int|
            0 <= i < comps.len() ==> (#[trigger] comps[i]).name@ != component_name(filter.name)) ==> comp_match(
            parent,
            comps,
            filter,
        ) == Some(false)),
{
    let name = component_name(filter.name);
    lemma_first_comp_is_first(comps, name, 0);
    if exists|i: int| 0 <= i < comps.len() && (#[trigger] comps[i]).name@ == name {
        let i = choose|i: int| 0 <= i < comps.len() && (#[trigger] comps[i]).name@ == name;
        assert(first_comp(comps, name, 0) is Some);
    }
}


/// The inner component filters from the `i`-th on all pass exactly when
/// each of them passes on the sub-components; one that cannot be decided
/// before any fails leaves the whole undecided.
proof fn lemma_all_comp_match(c: IcalComponent, filters: Seq<CompFilter>, i: int)
    requires
        0 <= i,
    ensures
        all_comp_match(c, filters, i) == Some(true) <==> forall|j: int|
            i <= j < filters.len() ==> comp_match(c, c.components@, #[trigger] filters[j]) == Some(true),
        all_comp_match(c, filters, i) == Some(false) ==> exists|j: int|
            i <= j < filters.len() && comp_match(c, c.components@, #[trigger] filters[j]) == Some(false),
    decreases filters.len() - i,
{
    if i < filters.len() {
        lemma_all_comp_match(c, filters, i + 1);
        if all_comp_match(c, filters, i + 1) == Some(false) {
            let j = choose|j: int| i + 1 <= j < filters.len() && comp_match(c, c.components@, #[trigger] filters[j]) == Some(false);
            assert(i <= j < filters.len());
        }
    }
}

/// A component filter with rules passes on the first component of its
/// name exactly when the component overlaps its time range (if any), every
/// property filter passes on the component's properties, and every inner
/// component filter passes on its sub-components.
pub proof fn law_comp_filter_rules(parent: IcalComponent, comps: Seq<IcalComponent>, filter: CompFilter, m: CompFilterMatch, k: int)
    requires
        filter.additional_rules == Some(CompFilterRules::Matches(m)),
        0 <= k < comps.len(),
        comps[k].name@ == component_name(filter.name),
        forall|j: int| 0 <= j < k ==> (#[trigger] comps[j]).name@ != component_name(filter.name),
    ensures
        comp_match(parent, comps, filter) == Some(true) <==> {
            &&& (m.time_range matches Some(tr) ==> in_time_range(filter.name, parent, comps[k].properties@, tr) == Some(true))
            &&& forall|i: int| 0 <= i < m.prop_filter@.len() ==> prop_filter_ok(comps[k].properties@, #[trigger] m.prop_filter@[i])
            &&& forall|j: int| 0 <= j < m.comp_filter@.len() ==> comp_match(comps[k], comps[k].components@, #[trigger] m.comp_filter@[j])
                == Some(true)
        },
{
    let name = component_name(filter.name);
    lemma_first_comp_is_first(comps, name, 0);
    match first_comp(comps, name, 0) {
        Some(k2) => {
            if k2 < k {
                assert(comps[k2].name@ != name);
            } else if k < k2 {
                assert(comps[k].name@ != name);
            }
        },
        None => {
            assert(comps[k].name@ != name);
        },
    }
    lemma_all_comp_match(comps[k], m.comp_filter@, 0);
}

} // verus!
