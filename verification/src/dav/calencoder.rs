//! Writing the CalDAV names, values, condition codes and time ranges
//! (RFC 4791).
use vstd::prelude::*;

use super::caltypes::{
    lemma_comp_decreases, CalProp, CalendarDataRequest, Comp, CompKind, Expand, LimitFreebusySet, LimitRecurrenceSet,
    PropKind, RecurrenceModifier, SupportedCollation, Filter, FreeBusyQuery, TimeZone,
    collation_name, lemma_comp_filter_decreases, CompFilter, CompFilterMatch, CompFilterRules, ParamFilter, ParamFilterMatch, PropFilter, PropFilterRules, TextMatch,
    TimeOrText,
    component_name, CalendarDataEmpty, CalendarDataPayload, CalendarDataSupport, CompSupport, Property, PropertyRequest,
    ResourceType, TimeRange, UtcTime, Violation, UTC_DATETIME_FMT,
};
use super::cardencoder::{around, lang_attr, write_all, write_around, write_around_all, written_all};
use super::syncencoder::{text_element, write_text_element};
use super::xml::{attrs_view, ElemStart, QWrite, WEvent, WView, Writer};
use crate::text::{decimal, decimal_string};

verus! {

/// The written name of the CalDAV element `name`: the `C` prefix, which
/// the writer binds to the CalDAV namespace.
pub open spec fn cal_q(name: Seq<char>) -> Seq<char> {
    seq!['C', ':'] + name
}

/// An empty CalDAV element with the attributes `attrs`.
pub open spec fn cal_atom(name: Seq<char>, attrs: Seq<(Seq<char>, Seq<char>)>) -> Seq<WView> {
    seq![WView::Empty(cal_q(name), attrs)]
}

/// Writes the empty CalDAV element `name`.
fn write_cal_atom(xml: &mut Writer, name: &str)
    ensures
        final(xml).out() == old(xml).out() + cal_atom(name@, old(xml).ns()),
        final(xml).ns() == Seq::<(Seq<char>, Seq<char>)>::empty(),
{
    let ghost o = xml.out();
    let e = xml.create_cal_element(name);
    xml.write(WEvent::Empty(e));
    assert(xml.out() =~= o + cal_atom(name@, old(xml).ns()));
}

impl QWrite for ResourceType {
    open spec fn qwrite_spec(&self, ns: Seq<(Seq<char>, Seq<char>)>) -> Seq<WView> {
        cal_atom("calendar"@, ns)
    }

    fn qwrite(&self, xml: &mut Writer) {
        write_cal_atom(xml, "calendar");
    }
}

/// The element name of a CalDAV property.
pub open spec fn cal_property_name(p: PropertyRequest) -> Seq<char> {
    match p {
        PropertyRequest::CalendarHomeSet => "calendar-home-set"@,
        PropertyRequest::CalendarDescription => "calendar-description"@,
        PropertyRequest::CalendarTimezone => "calendar-timezone"@,
        PropertyRequest::SupportedCalendarComponentSet => "supported-calendar-component-set"@,
        PropertyRequest::SupportedCalendarData => "supported-calendar-data"@,
        PropertyRequest::MaxResourceSize => "max-resource-size"@,
        PropertyRequest::MinDateTime => "min-date-time"@,
        PropertyRequest::MaxDateTime => "max-date-time"@,
        PropertyRequest::MaxInstances => "max-instances"@,
        PropertyRequest::MaxAttendeesPerInstance => "max-attendees-per-instance"@,
        PropertyRequest::SupportedCollationSet => "supported-collation-set"@,
        PropertyRequest::CalendarData(_) => "calendar-data"@,
    }
}

impl QWrite for PropertyRequest {
    open spec fn qwrite_spec(&self, ns: Seq<(Seq<char>, Seq<char>)>) -> Seq<WView> {
        match self {
            PropertyRequest::CalendarData(r) => r.qwrite_spec(ns),
            _ => cal_atom(cal_property_name(*self), ns),
        }
    }

    fn qwrite(&self, xml: &mut Writer) {
        match self {
            Self::CalendarHomeSet => write_cal_atom(xml, "calendar-home-set"),
            Self::CalendarDescription => write_cal_atom(xml, "calendar-description"),
            Self::CalendarTimezone => write_cal_atom(xml, "calendar-timezone"),
            Self::SupportedCalendarComponentSet => write_cal_atom(xml, "supported-calendar-component-set"),
            Self::SupportedCalendarData => write_cal_atom(xml, "supported-calendar-data"),
            Self::MaxResourceSize => write_cal_atom(xml, "max-resource-size"),
            Self::MinDateTime => write_cal_atom(xml, "min-date-time"),
            Self::MaxDateTime => write_cal_atom(xml, "max-date-time"),
            Self::MaxInstances => write_cal_atom(xml, "max-instances"),
            Self::MaxAttendeesPerInstance => write_cal_atom(xml, "max-attendees-per-instance"),
            Self::SupportedCollationSet => write_cal_atom(xml, "supported-collation-set"),
            Self::CalendarData(r) => r.qwrite(xml),
        }
    }
}

/// The element names of the CalDAV condition codes without content, all
/// written in the CalDAV namespace.
pub open spec fn cal_violation_name(v: Violation) -> Seq<char> {
    match v {
        Violation::ResourceMustBeNull => "resource-must-be-null"@,
        Violation::CalendarCollectionLocationOk => "calendar-collection-location-ok"@,
        Violation::ValidCalendarData => "valid-calendar-data"@,
        Violation::InitializeCalendarCollection => "initialize-calendar-collection"@,
        Violation::SupportedCalendarData => "supported-calendar-data"@,
        Violation::ValidCalendarObjectResource => "valid-calendar-object-resource"@,
        Violation::SupportedCalendarComponent => "supported-calendar-component"@,
        Violation::MaxResourceSize => "max-resource-size"@,
        Violation::MinDateTime => "min-date-time"@,
        Violation::MaxDateTime => "max-date-time"@,
        Violation::MaxInstances => "max-instances"@,
        Violation::MaxAttendeesPerInstance => "max-attendees-per-instance"@,
        Violation::ValidFilter => "valid-filter"@,
        Violation::NumberOfMatchesWithinLimits => "number-of-matches-within-limits"@,
        _ => Seq::empty(),
    }
}

impl QWrite for Violation {
    /// `need-privileges` is written in the DAV namespace, every other
    /// code in the CalDAV one.
    open spec fn qwrite_spec(&self, ns: Seq<(Seq<char>, Seq<char>)>) -> Seq<WView> {
        match self {
            Violation::NeedPrivileges => seq![WView::Empty(seq!['D', ':'] + "need-privileges"@, ns)],
            Violation::NoUidConflict(h) => around(cal_q("no-uid-conflict"@), ns, h.qwrite_spec(Seq::empty())),
            Violation::SupportedFilter { comp, prop, param } => around(
                cal_q("supported-filter"@),
                ns,
                written_all(comp@) + written_all(prop@) + written_all(param@),
            ),
            _ => cal_atom(cal_violation_name(*self), ns),
        }
    }

    fn qwrite(&self, xml: &mut Writer) {
        match self {
            Self::NeedPrivileges => {
                let ghost o = xml.out();
                xml.write_dav_atom("need-privileges");
                assert(xml.out() =~= o + self.qwrite_spec(old(xml).ns()));
            },
            Self::ResourceMustBeNull => write_cal_atom(xml, "resource-must-be-null"),
            Self::CalendarCollectionLocationOk => write_cal_atom(xml, "calendar-collection-location-ok"),
            Self::ValidCalendarData => write_cal_atom(xml, "valid-calendar-data"),
            Self::InitializeCalendarCollection => write_cal_atom(xml, "initialize-calendar-collection"),
            Self::SupportedCalendarData => write_cal_atom(xml, "supported-calendar-data"),
            Self::ValidCalendarObjectResource => write_cal_atom(xml, "valid-calendar-object-resource"),
            Self::SupportedCalendarComponent => write_cal_atom(xml, "supported-calendar-component"),
            Self::NoUidConflict(href) => {
                let start = xml.create_cal_element("no-uid-conflict");
                write_around(xml, start, href);
            },
            Self::MaxResourceSize => write_cal_atom(xml, "max-resource-size"),
            Self::MinDateTime => write_cal_atom(xml, "min-date-time"),
            Self::MaxDateTime => write_cal_atom(xml, "max-date-time"),
            Self::MaxInstances => write_cal_atom(xml, "max-instances"),
            Self::MaxAttendeesPerInstance => write_cal_atom(xml, "max-attendees-per-instance"),
            Self::ValidFilter => write_cal_atom(xml, "valid-filter"),
            Self::SupportedFilter { comp, prop, param } => {
                let ghost o = xml.out();
                let ghost ns = xml.ns();
                let start = xml.create_cal_element("supported-filter");
                let end = start.to_end();
                xml.write(WEvent::Start(start));
                write_all(xml, comp);
                write_all(xml, prop);
                write_all(xml, param);
                xml.write(end);
                assert(xml.out() =~= o + self.qwrite_spec(ns));
            },
            Self::NumberOfMatchesWithinLimits => write_cal_atom(xml, "number-of-matches-within-limits"),
        }
    }
}

/// The `content-type` and `version` attributes of calendar data, when it
/// names them.
pub open spec fn mime_attr(m: Option<CalendarDataSupport>) -> Seq<(Seq<char>, Seq<char>)> {
    match m {
        Some(t) => seq![("content-type"@, t.content_type@), ("version"@, t.version@)],
        None => Seq::empty(),
    }
}

/// Adds the media type and version attributes of calendar data to an
/// element.
fn push_mime_attr(start: &mut ElemStart, mime: &Option<CalendarDataSupport>)
    ensures
        final(start).qname@ == old(start).qname@,
        attrs_view(final(start).attrs@) == attrs_view(old(start).attrs@) + mime_attr(*mime),
{
    let ghost a0 = attrs_view(start.attrs@);
    if let Some(m) = mime {
        start.push_attribute("content-type", m.content_type.as_str());
        start.push_attribute("version", m.version.as_str());
    }
    proof {
        reveal_strlit("content-type");
        reveal_strlit("version");
    }
    assert(attrs_view(start.attrs@) =~= a0 + mime_attr(*mime));
}

impl QWrite for CompSupport {
    open spec fn qwrite_spec(&self, ns: Seq<(Seq<char>, Seq<char>)>) -> Seq<WView> {
        cal_atom("comp"@, ns + seq![("name"@, component_name(self.0))])
    }

    fn qwrite(&self, xml: &mut Writer) {
        let ghost o = xml.out();
        let ghost ns = xml.ns();
        let mut empty = xml.create_cal_element("comp");
        empty.push_attribute("name", self.0.as_str());
        proof {
            reveal_strlit("name");
            assert(attrs_view(empty.attrs@) =~= ns + seq![("name"@, component_name(self.0))]);
        }
        xml.write(WEvent::Empty(empty));
        assert(xml.out() =~= o + self.qwrite_spec(ns));
    }
}

impl QWrite for CalendarDataEmpty {
    open spec fn qwrite_spec(&self, ns: Seq<(Seq<char>, Seq<char>)>) -> Seq<WView> {
        cal_atom("calendar-data"@, ns + mime_attr(self.0))
    }

    fn qwrite(&self, xml: &mut Writer) {
        let ghost o = xml.out();
        let ghost ns = xml.ns();
        let mut empty = xml.create_cal_element("calendar-data");
        push_mime_attr(&mut empty, &self.0);
        xml.write(WEvent::Empty(empty));
        assert(xml.out() =~= o + self.qwrite_spec(ns));
    }
}

impl QWrite for CalendarDataPayload {
    open spec fn qwrite_spec(&self, ns: Seq<(Seq<char>, Seq<char>)>) -> Seq<WView> {
        text_element(cal_q("calendar-data"@), ns + mime_attr(self.mime), self.payload@)
    }

    fn qwrite(&self, xml: &mut Writer) {
        let mut start = xml.create_cal_element("calendar-data");
        push_mime_attr(&mut start, &self.mime);
        write_text_element(xml, start, self.payload.clone());
    }
}

/// The text `chrono` writes for a time in a `strftime`-style format; nothing
/// where chrono cannot represent the time.
pub uninterp spec fn utc_datetime_format(t: UtcTime, fmt: Seq<char>) -> Option<Seq<char>>;

/// `chrono::DateTime::<Utc>::from_timestamp` on the seconds and nanoseconds
/// of a time, then `format` with the CalDAV date-time format: the text, or
/// nothing where `from_timestamp` refuses the time. The text is named, not
/// described.
#[verifier::external_body]
fn format_utc(t: &UtcTime, fmt: &str) -> (r: Option<String>)
    requires
        fmt@ == UTC_DATETIME_FMT@,
    ensures
        match r {
            Some(s) => utc_datetime_format(*t, fmt@) == Some(s@),
            None => utc_datetime_format(*t, fmt@) is None,
        },
{
    match chrono::DateTime::from_timestamp(t.secs, t.nanos) {
        Some(d) => Some(format!("{}", d.format(fmt))),
        None => None,
    }
}

/// The text of a date-time property: the time in `UTC_DATETIME_FMT`, or
/// nothing for a time chrono cannot represent.
pub open spec fn date_text(t: UtcTime) -> Seq<char> {
    match utc_datetime_format(t, UTC_DATETIME_FMT@) {
        Some(s) => s,
        None => Seq::empty(),
    }
}

/// Writes the date-time element `name`; see `date_text`.
fn write_date_element(xml: &mut Writer, name: &str, t: &UtcTime)
    ensures
        final(xml).out() == old(xml).out() + text_element(cal_q(name@), old(xml).ns(), date_text(*t)),
        final(xml).ns() == Seq::<(Seq<char>, Seq<char>)>::empty(),
{
    let text = date_string(t);
    let start = xml.create_cal_element(name);
    write_text_element(xml, start, text);
}

impl QWrite for Property {
    open spec fn qwrite_spec(&self, ns: Seq<(Seq<char>, Seq<char>)>) -> Seq<WView> {
        match self {
            Property::CalendarHomeSet(h) => around(cal_q("calendar-home-set"@), ns, h.qwrite_spec(Seq::empty())),
            Property::CalendarDescription { lang, text } => text_element(
                cal_q("calendar-description"@),
                ns + lang_attr(*lang),
                text@,
            ),
            Property::CalendarTimezone(t) => text_element(cal_q("calendar-timezone"@), ns, t@),
            Property::SupportedCalendarComponentSet(v) => around(
                cal_q("supported-calendar-component-set"@),
                ns,
                written_all(v@),
            ),
            Property::SupportedCalendarData(v) => around(cal_q("supported-calendar-data"@), ns, written_all(v@)),
            Property::MaxResourceSize(n) => text_element(cal_q("max-resource-size"@), ns, decimal(*n as nat)),
            Property::MinDateTime(t) => text_element(cal_q("min-date-time"@), ns, date_text(*t)),
            Property::MaxDateTime(t) => text_element(cal_q("max-date-time"@), ns, date_text(*t)),
            Property::MaxInstances(n) => text_element(cal_q("max-instances"@), ns, decimal(*n as nat)),
            Property::MaxAttendeesPerInstance(n) => text_element(
                cal_q("max-attendees-per-instance"@),
                ns,
                decimal(*n as nat),
            ),
            Property::SupportedCollationSet(v) => around(cal_q("supported-collation-set"@), ns, written_all(v@)),
            Property::CalendarData(p) => p.qwrite_spec(ns),
        }
    }

    fn qwrite(&self, xml: &mut Writer) {
        match self {
            Self::CalendarHomeSet(href) => {
                let start = xml.create_cal_element("calendar-home-set");
                write_around(xml, start, href);
            },
            Self::CalendarDescription { lang, text } => {
                let ghost ns = xml.ns();
                let mut start = xml.create_cal_element("calendar-description");
                if let Some(the_lang) = lang {
                    start.push_attribute("xml:lang", the_lang.as_str());
                }
                proof {
                    reveal_strlit("xml:lang");
                    assert(attrs_view(start.attrs@) =~= ns + lang_attr(*lang));
                }
                write_text_element(xml, start, text.clone());
            },
            Self::CalendarTimezone(payload) => {
                let start = xml.create_cal_element("calendar-timezone");
                write_text_element(xml, start, payload.clone());
            },
            Self::SupportedCalendarComponentSet(many_comp) => {
                let start = xml.create_cal_element("supported-calendar-component-set");
                write_around_all(xml, start, many_comp);
            },
            Self::SupportedCalendarData(many_mime) => {
                let start = xml.create_cal_element("supported-calendar-data");
                write_around_all(xml, start, many_mime);
            },
            Self::MaxResourceSize(bytes) => {
                let start = xml.create_cal_element("max-resource-size");
                write_text_element(xml, start, decimal_string(*bytes));
            },
            Self::MinDateTime(dt) => write_date_element(xml, "min-date-time", dt),
            Self::MaxDateTime(dt) => write_date_element(xml, "max-date-time", dt),
            Self::MaxInstances(count) => {
                let start = xml.create_cal_element("max-instances");
                write_text_element(xml, start, decimal_string(*count));
            },
            Self::MaxAttendeesPerInstance(count) => {
                let start = xml.create_cal_element("max-attendees-per-instance");
                write_text_element(xml, start, decimal_string(*count));
            },
            Self::SupportedCollationSet(many_collations) => {
                let start = xml.create_cal_element("supported-collation-set");
                write_around_all(xml, start, many_collations);
            },
            Self::CalendarData(inner) => inner.qwrite(xml),
        }
    }
}

impl QWrite for SupportedCollation {
    open spec fn qwrite_spec(&self, ns: Seq<(Seq<char>, Seq<char>)>) -> Seq<WView> {
        text_element(cal_q("supported-collation"@), ns, collation_name(self.0@))
    }

    fn qwrite(&self, xml: &mut Writer) {
        let start = xml.create_cal_element("supported-collation");
        let name = self.0.as_str();
        write_text_element(xml, start, name.to_string());
    }
}

/// The `start` and `end` attributes of a time range, each end it has.
pub open spec fn time_range_attrs(t: TimeRange) -> Seq<(Seq<char>, Seq<char>)> {
    match t {
        TimeRange::OnlyStart(a) => seq![("start"@, date_text(a))],
        TimeRange::OnlyEnd(b) => seq![("end"@, date_text(b))],
        TimeRange::FullRange(a, b) => seq![("start"@, date_text(a)), ("end"@, date_text(b))],
    }
}

/// The text of a time, in `UTC_DATETIME_FMT`; see `date_text`.
fn date_string(t: &UtcTime) -> (r: String)
    ensures
        r@ == date_text(*t),
{
    match format_utc(t, UTC_DATETIME_FMT) {
        Some(s) => s,
        None => String::new(),
    }
}

impl QWrite for TimeRange {
    open spec fn qwrite_spec(&self, ns: Seq<(Seq<char>, Seq<char>)>) -> Seq<WView> {
        cal_atom("time-range"@, ns + time_range_attrs(*self))
    }

    fn qwrite(&self, xml: &mut Writer) {
        let ghost o = xml.out();
        let ghost ns = xml.ns();
        let mut empty = xml.create_cal_element("time-range");
        match self {
            TimeRange::OnlyStart(a) => {
                empty.push_attribute("start", date_string(a).as_str());
            },
            TimeRange::OnlyEnd(b) => {
                empty.push_attribute("end", date_string(b).as_str());
            },
            TimeRange::FullRange(a, b) => {
                empty.push_attribute("start", date_string(a).as_str());
                empty.push_attribute("end", date_string(b).as_str());
            },
        }
        proof {
            reveal_strlit("start");
            reveal_strlit("end");
            assert(attrs_view(empty.attrs@) =~= ns + time_range_attrs(*self));
        }
        xml.write(WEvent::Empty(empty));
        assert(xml.out() =~= o + self.qwrite_spec(ns));
    }
}

// --- Filters ---

/// The `collation` and `negate-condition` attributes of a text match, each
/// one it has.
pub open spec fn text_match_attrs(t: TextMatch) -> Seq<(Seq<char>, Seq<char>)> {
    (match t.collation {
        Some(c) => seq![("collation"@, collation_name(c@))],
        None => Seq::empty(),
    }) + (match t.negate_condition {
        Some(true) => seq![("negate-condition"@, "yes"@)],
        Some(false) => seq![("negate-condition"@, "no"@)],
        None => Seq::empty(),
    })
}

impl QWrite for TextMatch {
    open spec fn qwrite_spec(&self, ns: Seq<(Seq<char>, Seq<char>)>) -> Seq<WView> {
        text_element(cal_q("text-match"@), ns + text_match_attrs(*self), self.text@)
    }

    fn qwrite(&self, xml: &mut Writer) {
        let ghost ns = xml.ns();
        let mut start = xml.create_cal_element("text-match");
        if let Some(c) = &self.collation {
            start.push_attribute("collation", c.as_str());
        }
        match self.negate_condition {
            None => {},
            Some(true) => start.push_attribute("negate-condition", "yes"),
            Some(false) => start.push_attribute("negate-condition", "no"),
        }
        proof {
            reveal_strlit("collation");
            reveal_strlit("negate-condition");
            reveal_strlit("yes");
            reveal_strlit("no");
            assert(attrs_view(start.attrs@) =~= ns + text_match_attrs(*self));
        }
        write_text_element(xml, start, self.text.clone());
    }
}

impl QWrite for ParamFilterMatch {
    open spec fn qwrite_spec(&self, ns: Seq<(Seq<char>, Seq<char>)>) -> Seq<WView> {
        match self {
            ParamFilterMatch::IsNotDefined => cal_atom("is-not-defined"@, ns),
            ParamFilterMatch::Match(t) => t.qwrite_spec(ns),
        }
    }

    fn qwrite(&self, xml: &mut Writer) {
        match self {
            Self::IsNotDefined => write_cal_atom(xml, "is-not-defined"),
            Self::Match(t) => t.qwrite(xml),
        }
    }
}

/// The `name` attribute of a filter.
pub open spec fn name_attr(n: Seq<char>) -> Seq<(Seq<char>, Seq<char>)> {
    seq![("name"@, n)]
}

/// Writes a filter element named `name`: self-closing when it has no
/// rules, else around what `inner` wrote.
fn start_named(xml: &mut Writer, elem: &str, name: &str) -> (r: ElemStart)
    ensures
        r.qname@ == cal_q(elem@),
        attrs_view(r.attrs@) == old(xml).ns() + name_attr(name@),
        final(xml).ns() == Seq::<(Seq<char>, Seq<char>)>::empty(),
        final(xml).out() == old(xml).out(),
{
    let ghost ns = xml.ns();
    let mut start = xml.create_cal_element(elem);
    start.push_attribute("name", name);
    proof {
        reveal_strlit("name");
        assert(attrs_view(start.attrs@) =~= ns + name_attr(name@));
    }
    start
}

impl QWrite for ParamFilter {
    open spec fn qwrite_spec(&self, ns: Seq<(Seq<char>, Seq<char>)>) -> Seq<WView> {
        let a = ns + name_attr(self.name.0@);
        match self.additional_rules {
            None => cal_atom("param-filter"@, a),
            Some(r) => around(cal_q("param-filter"@), a, r.qwrite_spec(Seq::empty())),
        }
    }

    fn qwrite(&self, xml: &mut Writer) {
        let ghost o = xml.out();
        let ghost ns = xml.ns();
        let start = start_named(xml, "param-filter", self.name.0.as_str());
        match &self.additional_rules {
            None => {
                xml.write(WEvent::Empty(start));
            },
            Some(r) => {
                write_around(xml, start, r);
            },
        }
        assert(xml.out() =~= o + self.qwrite_spec(ns));
    }
}

impl QWrite for TimeOrText {
    open spec fn qwrite_spec(&self, ns: Seq<(Seq<char>, Seq<char>)>) -> Seq<WView> {
        match self {
            TimeOrText::Time(t) => t.qwrite_spec(ns),
            TimeOrText::Text(t) => t.qwrite_spec(ns),
        }
    }

    fn qwrite(&self, xml: &mut Writer) {
        match self {
            Self::Time(t) => t.qwrite(xml),
            Self::Text(t) => t.qwrite(xml),
        }
    }
}

/// What the rules of a prop-filter write inside it.
pub open spec fn prop_rules_written(r: PropFilterRules) -> Seq<WView> {
    match r {
        PropFilterRules::IsNotDefined => cal_atom("is-not-defined"@, Seq::empty()),
        PropFilterRules::Match(m) => (match m.time_or_text {
            Some(t) => t.qwrite_spec(Seq::empty()),
            None => Seq::empty(),
        }) + written_all(m.param_filter@),
    }
}

/// Writes the rules of a prop-filter; see `prop_rules_written`.
fn write_prop_rules(xml: &mut Writer, r: &PropFilterRules)
    requires
        old(xml).ns() == Seq::<(Seq<char>, Seq<char>)>::empty(),
    ensures
        final(xml).out() == old(xml).out() + prop_rules_written(*r),
        final(xml).ns() == Seq::<(Seq<char>, Seq<char>)>::empty(),
{
    let ghost o = xml.out();
    match r {
        PropFilterRules::IsNotDefined => write_cal_atom(xml, "is-not-defined"),
        PropFilterRules::Match(m) => {
            if let Some(t) = &m.time_or_text {
                t.qwrite(xml);
            }
            let ghost mid = xml.out();
            write_all(xml, &m.param_filter);
            assert(xml.out() =~= o + prop_rules_written(*r));
        },
    }
}

impl QWrite for PropFilter {
    open spec fn qwrite_spec(&self, ns: Seq<(Seq<char>, Seq<char>)>) -> Seq<WView> {
        let a = ns + name_attr(self.name.0@);
        match self.additional_rules {
            None => cal_atom("prop-filter"@, a),
            Some(r) => around(cal_q("prop-filter"@), a, prop_rules_written(r)),
        }
    }

    fn qwrite(&self, xml: &mut Writer) {
        let ghost o = xml.out();
        let ghost ns = xml.ns();
        let start = start_named(xml, "prop-filter", self.name.0.as_str());
        match &self.additional_rules {
            None => {
                xml.write(WEvent::Empty(start));
            },
            Some(r) => {
                let ghost q = start.qname@;
                let ghost a = attrs_view(start.attrs@);
                let end = start.to_end();
                xml.write(WEvent::Start(start));
                write_prop_rules(xml, r);
                xml.write(end);
            },
        }
        assert(xml.out() =~= o + self.qwrite_spec(ns));
    }
}

/// What a comp-filter writes, its nested filters included.
pub open spec fn comp_filter_written(c: CompFilter, ns: Seq<(Seq<char>, Seq<char>)>) -> Seq<WView>
    decreases c,
{
    let a = ns + name_attr(component_name(c.name));
    match c.additional_rules {
        None => cal_atom("comp-filter"@, a),
        Some(r) => around(cal_q("comp-filter"@), a, comp_rules_written(r)),
    }
}

/// What the rules of a comp-filter write inside it.
pub open spec fn comp_rules_written(r: CompFilterRules) -> Seq<WView>
    decreases r,
{
    match r {
        CompFilterRules::IsNotDefined => cal_atom("is-not-defined"@, Seq::empty()),
        CompFilterRules::Matches(m) => (match m.time_range {
            Some(t) => t.qwrite_spec(Seq::empty()),
            None => Seq::empty(),
        }) + written_all(m.prop_filter@) + comp_filters_written(m.comp_filter@),
    }
}

/// What a list of comp-filters writes, one after the other.
pub open spec fn comp_filters_written(s: Seq<CompFilter>) -> Seq<WView>
    decreases s,
{
    if s.len() == 0 {
        Seq::empty()
    } else {
        comp_filters_written(s.drop_last()) + comp_filter_written(s.last(), Seq::empty())
    }
}

/// Writes a comp-filter; see `comp_filter_written`.
fn write_comp_filter(xml: &mut Writer, c: &CompFilter)
    ensures
        final(xml).out() == old(xml).out() + comp_filter_written(*c, old(xml).ns()),
        final(xml).ns() == Seq::<(Seq<char>, Seq<char>)>::empty(),
    decreases *c,
{
    let ghost o = xml.out();
    let ghost ns = xml.ns();
    let start = start_named(xml, "comp-filter", c.name.as_str());
    match &c.additional_rules {
        None => {
            xml.write(WEvent::Empty(start));
        },
        Some(CompFilterRules::IsNotDefined) => {
            let end = start.to_end();
            xml.write(WEvent::Start(start));
            write_cal_atom(xml, "is-not-defined");
            xml.write(end);
        },
        Some(CompFilterRules::Matches(m)) => {
            let end = start.to_end();
            xml.write(WEvent::Start(start));
            let ghost inner0 = xml.out();
            if let Some(t) = &m.time_range {
                t.qwrite(xml);
            }
            write_all(xml, &m.prop_filter);
            let ghost head = xml.out();
            let mut i: usize = 0;
            while i < m.comp_filter.len()
                invariant
                    i <= m.comp_filter@.len(),
                    xml.ns() == Seq::<(Seq<char>, Seq<char>)>::empty(),
                    xml.out() == head + comp_filters_written(m.comp_filter@.take(i as int)),
                    c.additional_rules == Some(CompFilterRules::Matches(*m)),
                decreases m.comp_filter@.len() - i,
            {
                proof {
                    lemma_comp_filter_decreases(*c, *m, i as int);
                }
                write_comp_filter(xml, &m.comp_filter[i]);
                proof {
                    assert(m.comp_filter@.take(i + 1).drop_last() == m.comp_filter@.take(i as int));
                    assert(m.comp_filter@.take(i + 1).last() == m.comp_filter@[i as int]);
                }
                i = i + 1;
            }
            proof {
                assert(m.comp_filter@.take(m.comp_filter@.len() as int) == m.comp_filter@);
            }
            xml.write(end);
        },
    }
    assert(xml.out() =~= o + comp_filter_written(*c, ns));
}

impl QWrite for CompFilter {
    open spec fn qwrite_spec(&self, ns: Seq<(Seq<char>, Seq<char>)>) -> Seq<WView> {
        comp_filter_written(*self, ns)
    }

    fn qwrite(&self, xml: &mut Writer) {
        write_comp_filter(xml, self);
    }
}

// --- The calendar-data request ---

/// The `novalue` attribute of a property to return, when it has one.
pub open spec fn novalue_attr(n: Option<bool>) -> Seq<(Seq<char>, Seq<char>)> {
    match n {
        Some(true) => seq![("novalue"@, "yes"@)],
        Some(false) => seq![("novalue"@, "no"@)],
        None => Seq::empty(),
    }
}

impl QWrite for CalProp {
    open spec fn qwrite_spec(&self, ns: Seq<(Seq<char>, Seq<char>)>) -> Seq<WView> {
        cal_atom("prop"@, ns + name_attr(self.name.0@) + novalue_attr(self.novalue))
    }

    fn qwrite(&self, xml: &mut Writer) {
        let ghost o = xml.out();
        let ghost ns = xml.ns();
        let mut empty = start_named(xml, "prop", self.name.0.as_str());
        match self.novalue {
            None => {},
            Some(true) => empty.push_attribute("novalue", "yes"),
            Some(false) => empty.push_attribute("novalue", "no"),
        }
        proof {
            reveal_strlit("novalue");
            reveal_strlit("yes");
            reveal_strlit("no");
            assert(attrs_view(empty.attrs@) =~= ns + name_attr(self.name.0@) + novalue_attr(self.novalue));
        }
        xml.write(WEvent::Empty(empty));
        assert(xml.out() =~= o + self.qwrite_spec(ns));
    }
}

/// What a property selection writes inside a `<C:comp>`.
pub open spec fn prop_kind_written(p: Option<PropKind>) -> Seq<WView> {
    match p {
        None => Seq::empty(),
        Some(PropKind::AllProp) => cal_atom("allprop"@, Seq::empty()),
        Some(PropKind::Prop(v)) => written_all(v@),
    }
}

/// What a component selection writes, its nested selections included.
pub open spec fn comp_written(c: Comp, ns: Seq<(Seq<char>, Seq<char>)>) -> Seq<WView>
    decreases c,
{
    let a = ns + name_attr(component_name(c.name));
    if c.prop_kind is None && c.comp_kind is None {
        cal_atom("comp"@, a)
    } else {
        around(cal_q("comp"@), a, prop_kind_written(c.prop_kind) + comp_kind_written(c.comp_kind))
    }
}

/// What a sub-component selection writes inside a `<C:comp>`.
pub open spec fn comp_kind_written(k: Option<CompKind>) -> Seq<WView>
    decreases k,
{
    match k {
        None => Seq::empty(),
        Some(CompKind::AllComp) => cal_atom("allcomp"@, Seq::empty()),
        Some(CompKind::Comp(v)) => comps_written(v@),
    }
}

/// What a list of component selections writes, one after the other.
pub open spec fn comps_written(s: Seq<Comp>) -> Seq<WView>
    decreases s,
{
    if s.len() == 0 {
        Seq::empty()
    } else {
        comps_written(s.drop_last()) + comp_written(s.last(), Seq::empty())
    }
}

/// Writes a component selection; see `comp_written`.
fn write_comp(xml: &mut Writer, c: &Comp)
    ensures
        final(xml).out() == old(xml).out() + comp_written(*c, old(xml).ns()),
        final(xml).ns() == Seq::<(Seq<char>, Seq<char>)>::empty(),
    decreases *c,
{
    let ghost o = xml.out();
    let ghost ns = xml.ns();
    let start = start_named(xml, "comp", c.name.as_str());
    if c.prop_kind.is_none() && c.comp_kind.is_none() {
        xml.write(WEvent::Empty(start));
    } else {
        let end = start.to_end();
        xml.write(WEvent::Start(start));
        let ghost inner0 = xml.out();
        match &c.prop_kind {
            None => {},
            Some(PropKind::AllProp) => write_cal_atom(xml, "allprop"),
            Some(PropKind::Prop(v)) => write_all(xml, v),
        }
        assert(xml.out() =~= inner0 + prop_kind_written(c.prop_kind));
        let ghost inner1 = xml.out();
        match &c.comp_kind {
            None => {},
            Some(CompKind::AllComp) => write_cal_atom(xml, "allcomp"),
            Some(CompKind::Comp(v)) => {
                let mut i: usize = 0;
                while i < v.len()
                    invariant
                        i <= v@.len(),
                        xml.ns() == Seq::<(Seq<char>, Seq<char>)>::empty(),
                        xml.out() == inner1 + comps_written(v@.take(i as int)),
                        c.comp_kind == Some(CompKind::Comp(*v)),
                    decreases v@.len() - i,
                {
                    proof {
                        lemma_comp_decreases(*c, *v, i as int);
                    }
                    write_comp(xml, &v[i]);
                    proof {
                        assert(v@.take(i + 1).drop_last() == v@.take(i as int));
                        assert(v@.take(i + 1).last() == v@[i as int]);
                    }
                    i = i + 1;
                }
                proof {
                    assert(v@.take(v@.len() as int) == v@);
                }
            },
        }
        assert(xml.out() =~= inner1 + comp_kind_written(c.comp_kind));
        xml.write(end);
    }
    assert(xml.out() =~= o + comp_written(*c, ns));
}

impl QWrite for Comp {
    open spec fn qwrite_spec(&self, ns: Seq<(Seq<char>, Seq<char>)>) -> Seq<WView> {
        comp_written(*self, ns)
    }

    fn qwrite(&self, xml: &mut Writer) {
        write_comp(xml, self);
    }
}

/// The `start` and `end` attributes of a time span.
pub open spec fn span_attrs(a: UtcTime, b: UtcTime) -> Seq<(Seq<char>, Seq<char>)> {
    seq![("start"@, date_text(a)), ("end"@, date_text(b))]
}

/// Writes the self-closing time span `name`.
fn write_span(xml: &mut Writer, name: &str, a: &UtcTime, b: &UtcTime)
    ensures
        final(xml).out() == old(xml).out() + cal_atom(name@, old(xml).ns() + span_attrs(*a, *b)),
        final(xml).ns() == Seq::<(Seq<char>, Seq<char>)>::empty(),
{
    let ghost o = xml.out();
    let ghost ns = xml.ns();
    let mut empty = xml.create_cal_element(name);
    empty.push_attribute("start", date_string(a).as_str());
    empty.push_attribute("end", date_string(b).as_str());
    proof {
        reveal_strlit("start");
        reveal_strlit("end");
        assert(attrs_view(empty.attrs@) =~= ns + span_attrs(*a, *b));
    }
    xml.write(WEvent::Empty(empty));
    assert(xml.out() =~= o + cal_atom(name@, ns + span_attrs(*a, *b)));
}

impl QWrite for Expand {
    open spec fn qwrite_spec(&self, ns: Seq<(Seq<char>, Seq<char>)>) -> Seq<WView> {
        cal_atom("expand"@, ns + span_attrs(self.0, self.1))
    }

    fn qwrite(&self, xml: &mut Writer) {
        write_span(xml, "expand", &self.0, &self.1);
    }
}

impl QWrite for LimitRecurrenceSet {
    open spec fn qwrite_spec(&self, ns: Seq<(Seq<char>, Seq<char>)>) -> Seq<WView> {
        cal_atom("limit-recurrence-set"@, ns + span_attrs(self.0, self.1))
    }

    fn qwrite(&self, xml: &mut Writer) {
        write_span(xml, "limit-recurrence-set", &self.0, &self.1);
    }
}

impl QWrite for LimitFreebusySet {
    open spec fn qwrite_spec(&self, ns: Seq<(Seq<char>, Seq<char>)>) -> Seq<WView> {
        cal_atom("limit-freebusy-set"@, ns + span_attrs(self.0, self.1))
    }

    fn qwrite(&self, xml: &mut Writer) {
        write_span(xml, "limit-freebusy-set", &self.0, &self.1);
    }
}

impl QWrite for RecurrenceModifier {
    open spec fn qwrite_spec(&self, ns: Seq<(Seq<char>, Seq<char>)>) -> Seq<WView> {
        match self {
            RecurrenceModifier::Expand(e) => e.qwrite_spec(ns),
            RecurrenceModifier::LimitRecurrenceSet(l) => l.qwrite_spec(ns),
        }
    }

    fn qwrite(&self, xml: &mut Writer) {
        match self {
            Self::Expand(e) => e.qwrite(xml),
            Self::LimitRecurrenceSet(l) => l.qwrite(xml),
        }
    }
}

/// What an optional child writes.
pub open spec fn opt_written<T: QWrite>(v: Option<T>) -> Seq<WView> {
    match v {
        Some(x) => x.qwrite_spec(Seq::empty()),
        None => Seq::empty(),
    }
}

/// Writes an optional child.
fn write_opt<T: QWrite>(xml: &mut Writer, v: &Option<T>)
    requires
        old(xml).ns() == Seq::<(Seq<char>, Seq<char>)>::empty(),
    ensures
        final(xml).out() == old(xml).out() + opt_written(*v),
        final(xml).ns() == Seq::<(Seq<char>, Seq<char>)>::empty(),
{
    match v {
        Some(x) => x.qwrite(xml),
        None => {
            assert(xml.out() =~= old(xml).out() + opt_written(*v));
        },
    }
}

impl QWrite for CalendarDataRequest {
    open spec fn qwrite_spec(&self, ns: Seq<(Seq<char>, Seq<char>)>) -> Seq<WView> {
        around(
            cal_q("calendar-data"@),
            ns + mime_attr(self.mime),
            opt_written(self.comp) + opt_written(self.recurrence) + opt_written(self.limit_freebusy_set),
        )
    }

    fn qwrite(&self, xml: &mut Writer) {
        let ghost o = xml.out();
        let ghost ns = xml.ns();
        let mut start = xml.create_cal_element("calendar-data");
        push_mime_attr(&mut start, &self.mime);
        let end = start.to_end();
        xml.write(WEvent::Start(start));
        write_opt(xml, &self.comp);
        write_opt(xml, &self.recurrence);
        write_opt(xml, &self.limit_freebusy_set);
        xml.write(end);
        assert(xml.out() =~= o + self.qwrite_spec(ns));
    }
}

// --- Report parts ---

impl QWrite for TimeZone {
    open spec fn qwrite_spec(&self, ns: Seq<(Seq<char>, Seq<char>)>) -> Seq<WView> {
        text_element(cal_q("timezone"@), ns, self.0@)
    }

    fn qwrite(&self, xml: &mut Writer) {
        let start = xml.create_cal_element("timezone");
        write_text_element(xml, start, self.0.clone());
    }
}

impl QWrite for Filter {
    open spec fn qwrite_spec(&self, ns: Seq<(Seq<char>, Seq<char>)>) -> Seq<WView> {
        around(cal_q("filter"@), ns, self.0.qwrite_spec(Seq::empty()))
    }

    fn qwrite(&self, xml: &mut Writer) {
        let start = xml.create_cal_element("filter");
        write_around(xml, start, &self.0);
    }
}

impl QWrite for FreeBusyQuery {
    open spec fn qwrite_spec(&self, ns: Seq<(Seq<char>, Seq<char>)>) -> Seq<WView> {
        around(cal_q("free-busy-query"@), ns, self.0.qwrite_spec(Seq::empty()))
    }

    fn qwrite(&self, xml: &mut Writer) {
        let start = xml.create_cal_element("free-busy-query");
        write_around(xml, start, &self.0);
    }
}

} // verus!
