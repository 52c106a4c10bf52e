//! CalDAV (RFC 4791) data model: the calendar components, collations,
//! time ranges and the filters of calendar queries, and the names and
//! condition codes CalDAV adds to WebDAV.
use vstd::prelude::*;

use super::extension::Extension;
use super::types as dav;
use super::xml::{opt_view, views};
use super::coredecoder::{PropStatView, PropertyRequestView as DavPropertyRequestView, PropertyValueView};
use crate::text::str_eq;

verus! {

/// The text of a UTC date-time in CalDAV: `20060104T140000Z`.
pub const UTC_DATETIME_FMT: &'static str = "%Y%m%dT%H%M%SZ";

/// The text of a floating date-time: `20060104T140000`.
pub const FLOATING_DATETIME_FMT: &'static str = "%Y%m%dT%H%M%S";

/// A collation a text match may ask for (RFC 4791, section 7.5).
#[derive(Debug, PartialEq, Clone)]
pub enum Collation {
    /// `i;ascii-casemap`: ASCII letters compare without case.
    AsciiCaseMap,
    /// `i;octet`: bytes compare as they are.
    Octet,
    /// A collation of another name.
    Unknown(String),
}

/// A collation by its view.
pub enum CollationView {
    AsciiCaseMap,
    Octet,
    Unknown(Seq<char>),
}

impl View for Collation {
    type V = CollationView;

    open spec fn view(&self) -> CollationView {
        match self {
            Collation::AsciiCaseMap => CollationView::AsciiCaseMap,
            Collation::Octet => CollationView::Octet,
            Collation::Unknown(s) => CollationView::Unknown(s@),
        }
    }
}

/// The registered name of a collation.
pub open spec fn collation_name(c: CollationView) -> Seq<char> {
    match c {
        CollationView::AsciiCaseMap => "i;ascii-casemap"@,
        CollationView::Octet => "i;octet"@,
        CollationView::Unknown(s) => s,
    }
}

/// The collation a name stands for.
pub open spec fn collation_view_of(v: Seq<char>) -> CollationView {
    if v == "i;ascii-casemap"@ {
        CollationView::AsciiCaseMap
    } else if v == "i;octet"@ {
        CollationView::Octet
    } else {
        CollationView::Unknown(v)
    }
}

impl Collation {
    /// The collation's name.
    pub fn as_str<'a>(&'a self) -> (r: &'a str)
        ensures
            r@ == collation_name(self@),
    {
        match self {
            Collation::AsciiCaseMap => "i;ascii-casemap",
            Collation::Octet => "i;octet",
            Collation::Unknown(s) => s.as_str(),
        }
    }

    /// The collation named `v`; other names give `Unknown`.
    pub fn new(v: String) -> (r: Self)
        ensures
            r@ == collation_view_of(v@),
    {
        if str_eq(v.as_str(), "i;ascii-casemap") {
            Collation::AsciiCaseMap
        } else if str_eq(v.as_str(), "i;octet") {
            Collation::Octet
        } else {
            Collation::Unknown(v)
        }
    }
}

/// A calendar component type (RFC 5545, section 3.6).
#[derive(Debug, PartialEq, Clone)]
pub enum Component {
    VCalendar,
    VJournal,
    VFreeBusy,
    VEvent,
    VTodo,
    VAlarm,
    VTimeZone,
    Unknown(String),
}

/// The name of a component type.
pub open spec fn component_name(c: Component) -> Seq<char> {
    match c {
        Component::VCalendar => "VCALENDAR"@,
        Component::VJournal => "VJOURNAL"@,
        Component::VFreeBusy => "VFREEBUSY"@,
        Component::VEvent => "VEVENT"@,
        Component::VTodo => "VTODO"@,
        Component::VAlarm => "VALARM"@,
        Component::VTimeZone => "VTIMEZONE"@,
        Component::Unknown(s) => s@,
    }
}

/// The component type a name stands for.
pub open spec fn component_of(v: String) -> Component {
    if v@ == "VCALENDAR"@ {
        Component::VCalendar
    } else if v@ == "VJOURNAL"@ {
        Component::VJournal
    } else if v@ == "VFREEBUSY"@ {
        Component::VFreeBusy
    } else if v@ == "VEVENT"@ {
        Component::VEvent
    } else if v@ == "VTODO"@ {
        Component::VTodo
    } else if v@ == "VALARM"@ {
        Component::VAlarm
    } else if v@ == "VTIMEZONE"@ {
        Component::VTimeZone
    } else {
        Component::Unknown(v)
    }
}

impl Component {
    /// The component type's name.
    pub fn as_str<'a>(&'a self) -> (r: &'a str)
        ensures
            r@ == component_name(*self),
    {
        match self {
            Component::VCalendar => "VCALENDAR",
            Component::VJournal => "VJOURNAL",
            Component::VFreeBusy => "VFREEBUSY",
            Component::VEvent => "VEVENT",
            Component::VTodo => "VTODO",
            Component::VAlarm => "VALARM",
            Component::VTimeZone => "VTIMEZONE",
            Component::Unknown(s) => s.as_str(),
        }
    }

    /// The component type named `v`; other names give `Unknown`.
    pub fn new(v: String) -> (r: Self)
        ensures
            r == component_of(v),
            r@ == component_view_of(v@),
    {
        if str_eq(v.as_str(), "VCALENDAR") {
            Component::VCalendar
        } else if str_eq(v.as_str(), "VJOURNAL") {
            Component::VJournal
        } else if str_eq(v.as_str(), "VFREEBUSY") {
            Component::VFreeBusy
        } else if str_eq(v.as_str(), "VEVENT") {
            Component::VEvent
        } else if str_eq(v.as_str(), "VTODO") {
            Component::VTodo
        } else if str_eq(v.as_str(), "VALARM") {
            Component::VAlarm
        } else if str_eq(v.as_str(), "VTIMEZONE") {
            Component::VTimeZone
        } else {
            Component::Unknown(v)
        }
    }
}

/// The name of a component property, such as `DTSTART`.
#[derive(Debug, PartialEq, Clone)]
pub struct ComponentProperty(pub String);

/// The name of a property parameter, such as `VALUE`.
#[derive(Debug, PartialEq, Clone)]
pub struct PropertyParameter(pub String);

impl PropertyParameter {
    /// The parameter's name.
    pub fn as_str<'a>(&'a self) -> (r: &'a str)
        ensures
            r@ == self.0@,
    {
        self.0.as_str()
    }
}

/// A point in time in UTC: seconds since the UNIX epoch, then nanoseconds,
/// which exceed a second only inside a leap second.
#[derive(Debug, PartialEq, Clone, Copy)]
pub struct UtcTime {
    pub secs: i64,
    pub nanos: u32,
}

/// The order of time points.
pub open spec fn utc_lt(a: UtcTime, b: UtcTime) -> bool {
    a.secs < b.secs || (a.secs == b.secs && a.nanos < b.nanos)
}

/// Whether a time point is not after another.
pub open spec fn utc_le(a: UtcTime, b: UtcTime) -> bool {
    !utc_lt(b, a)
}

/// Whether `a` is strictly before `b`.
pub fn utc_less(a: &UtcTime, b: &UtcTime) -> (r: bool)
    ensures
        r == utc_lt(*a, *b),
{
    a.secs < b.secs || (a.secs == b.secs && a.nanos < b.nanos)
}

/// Whether `a` is not after `b`.
pub fn utc_not_after(a: &UtcTime, b: &UtcTime) -> (r: bool)
    ensures
        r == utc_le(*a, *b),
{
    !utc_less(b, a)
}

/// A time range of a filter (RFC 4791, section 9.9).
#[derive(Debug, PartialEq, Clone)]
pub enum TimeRange {
    OnlyStart(UtcTime),
    OnlyEnd(UtcTime),
    FullRange(UtcTime, UtcTime),
}

impl View for TimeRange {
    type V = TimeRange;

    open spec fn view(&self) -> TimeRange {
        *self
    }
}

/// A text a property or parameter value must hold (RFC 4791, section 9.7.5).
#[derive(Debug, PartialEq, Clone)]
pub struct TextMatch {
    pub collation: Option<Collation>,
    pub negate_condition: Option<bool>,
    pub text: String,
}

/// What a parameter filter asks of a parameter.
#[derive(Debug, PartialEq, Clone)]
pub enum ParamFilterMatch {
    IsNotDefined,
    Match(TextMatch),
}

/// A filter on a property parameter (RFC 4791, section 9.7.3).
#[derive(Debug, PartialEq, Clone)]
pub struct ParamFilter {
    pub name: PropertyParameter,
    pub additional_rules: Option<ParamFilterMatch>,
}

/// A time range or a text a property value is tested against.
#[derive(Debug, PartialEq, Clone)]
pub enum TimeOrText {
    Time(TimeRange),
    Text(TextMatch),
}

/// The tests of a property filter.
#[derive(Debug, PartialEq, Clone)]
pub struct PropFilterMatch {
    pub time_or_text: Option<TimeOrText>,
    pub param_filter: Vec<ParamFilter>,
}

/// What a property filter asks of a property.
#[derive(Debug, PartialEq, Clone)]
pub enum PropFilterRules {
    IsNotDefined,
    Match(PropFilterMatch),
}

/// A filter on a component property (RFC 4791, section 9.7.2).
#[derive(Debug, PartialEq, Clone)]
pub struct PropFilter {
    pub name: ComponentProperty,
    pub additional_rules: Option<PropFilterRules>,
}

/// The tests of a component filter.
#[derive(Debug, PartialEq)]
pub struct CompFilterMatch {
    pub time_range: Option<TimeRange>,
    pub prop_filter: Vec<PropFilter>,
    pub comp_filter: Vec<CompFilter>,
}

/// What a component filter asks of a component.
#[derive(Debug, PartialEq)]
pub enum CompFilterRules {
    IsNotDefined,
    Matches(CompFilterMatch),
}

/// A filter on a calendar component (RFC 4791, section 9.7.1).
#[derive(Debug, PartialEq)]
pub struct CompFilter {
    pub name: Component,
    pub additional_rules: Option<CompFilterRules>,
}

/// A comp-filter is larger than each filter nested in it.
pub(crate) proof fn lemma_comp_filter_decreases(c: CompFilter, m: CompFilterMatch, i: int)
    requires
        c.additional_rules == Some(CompFilterRules::Matches(m)),
        0 <= i < m.comp_filter@.len(),
    ensures
        decreases_to!(c => m.comp_filter@[i]),
{
    let r = c.additional_rules;
    assert(decreases_to!(c => r));
    let rr = r->0;
    assert(decreases_to!(r => rr));
    assert(decreases_to!(rr => rr->Matches_0));
    assert(rr->Matches_0 == m);
    assert(decreases_to!(m => m.comp_filter));
    assert(decreases_to!(m.comp_filter => m.comp_filter@));
    assert(decreases_to!(m.comp_filter@ => m.comp_filter@[i]));
}

/// A copy of a component filter, its nested filters included.
fn clone_comp_filter(c: &CompFilter) -> (r: CompFilter)
    decreases *c,
{
    let additional_rules = match &c.additional_rules {
        None => None,
        Some(CompFilterRules::IsNotDefined) => Some(CompFilterRules::IsNotDefined),
        Some(CompFilterRules::Matches(m)) => {
            let mut comp_filter: Vec<CompFilter> = Vec::new();
            let mut i: usize = 0;
            while i < m.comp_filter.len()
                invariant
                    i <= m.comp_filter@.len(),
                    c.additional_rules == Some(CompFilterRules::Matches(*m)),
                decreases m.comp_filter@.len() - i,
            {
                proof {
                    lemma_comp_filter_decreases(*c, *m, i as int);
                }
                comp_filter.push(clone_comp_filter(&m.comp_filter[i]));
                i = i + 1;
            }
            Some(
                CompFilterRules::Matches(
                    CompFilterMatch { time_range: m.time_range.clone(), prop_filter: m.prop_filter.clone(), comp_filter },
                ),
            )
        },
    };
    CompFilter { name: c.name.clone(), additional_rules }
}

impl Clone for CompFilter {
    fn clone(&self) -> Self {
        clone_comp_filter(self)
    }
}

/// A property to return in calendar data (RFC 4791, section 9.6.4).
#[derive(Debug, PartialEq, Clone)]
pub struct CalProp {
    pub name: ComponentProperty,
    pub novalue: Option<bool>,
}

/// Which properties of a component to return.
#[derive(Debug, PartialEq, Clone)]
pub enum PropKind {
    AllProp,
    Prop(Vec<CalProp>),
}

/// Which sub-components of a component to return.
#[derive(Debug, PartialEq)]
pub enum CompKind {
    AllComp,
    Comp(Vec<Comp>),
}

/// The part of a component to return (RFC 4791, section 9.6.1).
#[derive(Debug, PartialEq)]
pub struct Comp {
    pub name: Component,
    pub prop_kind: Option<PropKind>,
    pub comp_kind: Option<CompKind>,
}

// --- Hooks into WebDAV ---

/// The calendar resource type.
#[derive(Debug, PartialEq, Clone)]
pub enum ResourceType {
    Calendar,
}

impl View for ResourceType {
    type V = ResourceType;

    open spec fn view(&self) -> ResourceType {
        *self
    }
}

/// The CalDAV property names.
#[derive(Debug, PartialEq, Clone)]
pub enum PropertyRequest {
    CalendarHomeSet,
    CalendarDescription,
    CalendarTimezone,
    SupportedCalendarComponentSet,
    SupportedCalendarData,
    MaxResourceSize,
    MinDateTime,
    MaxDateTime,
    MaxInstances,
    MaxAttendeesPerInstance,
    SupportedCollationSet,
    CalendarData(CalendarDataRequest),
}

/// A CalDAV property name by its view.
pub enum PropertyRequestView {
    CalendarHomeSet,
    CalendarDescription,
    CalendarTimezone,
    SupportedCalendarComponentSet,
    SupportedCalendarData,
    MaxResourceSize,
    MinDateTime,
    MaxDateTime,
    MaxInstances,
    MaxAttendeesPerInstance,
    SupportedCollationSet,
    CalendarData(CalendarDataRequestView),
}

impl View for PropertyRequest {
    type V = PropertyRequestView;

    open spec fn view(&self) -> PropertyRequestView {
        match self {
            PropertyRequest::CalendarHomeSet => PropertyRequestView::CalendarHomeSet,
            PropertyRequest::CalendarDescription => PropertyRequestView::CalendarDescription,
            PropertyRequest::CalendarTimezone => PropertyRequestView::CalendarTimezone,
            PropertyRequest::SupportedCalendarComponentSet => PropertyRequestView::SupportedCalendarComponentSet,
            PropertyRequest::SupportedCalendarData => PropertyRequestView::SupportedCalendarData,
            PropertyRequest::MaxResourceSize => PropertyRequestView::MaxResourceSize,
            PropertyRequest::MinDateTime => PropertyRequestView::MinDateTime,
            PropertyRequest::MaxDateTime => PropertyRequestView::MaxDateTime,
            PropertyRequest::MaxInstances => PropertyRequestView::MaxInstances,
            PropertyRequest::MaxAttendeesPerInstance => PropertyRequestView::MaxAttendeesPerInstance,
            PropertyRequest::SupportedCollationSet => PropertyRequestView::SupportedCollationSet,
            PropertyRequest::CalendarData(r) => PropertyRequestView::CalendarData(r@),
        }
    }
}

/// The CalDAV precondition and postcondition codes (RFC 4791, sections
/// 5.3.2, 5.3.4, 7.8 and 9.7), with the two DAV codes a CalDAV server
/// reports beside them.
#[derive(Debug, PartialEq, Clone)]
pub enum Violation {
    ResourceMustBeNull,
    NeedPrivileges,
    CalendarCollectionLocationOk,
    ValidCalendarData,
    InitializeCalendarCollection,
    SupportedCalendarData,
    ValidCalendarObjectResource,
    SupportedCalendarComponent,
    NoUidConflict(dav::Href),
    MaxResourceSize,
    MinDateTime,
    MaxDateTime,
    MaxInstances,
    MaxAttendeesPerInstance,
    ValidFilter,
    SupportedFilter { comp: Vec<CompFilter>, prop: Vec<PropFilter>, param: Vec<ParamFilter> },
    NumberOfMatchesWithinLimits,
}

/// A CalDAV condition code by its view.
pub enum ViolationView {
    ResourceMustBeNull,
    NeedPrivileges,
    CalendarCollectionLocationOk,
    ValidCalendarData,
    InitializeCalendarCollection,
    SupportedCalendarData,
    ValidCalendarObjectResource,
    SupportedCalendarComponent,
    NoUidConflict(Seq<char>),
    MaxResourceSize,
    MinDateTime,
    MaxDateTime,
    MaxInstances,
    MaxAttendeesPerInstance,
    ValidFilter,
    SupportedFilter { comp: Seq<CompFilterView>, prop: Seq<PropFilterView>, param: Seq<ParamFilterView> },
    NumberOfMatchesWithinLimits,
}

impl View for Violation {
    type V = ViolationView;

    open spec fn view(&self) -> ViolationView {
        match self {
            Violation::ResourceMustBeNull => ViolationView::ResourceMustBeNull,
            Violation::NeedPrivileges => ViolationView::NeedPrivileges,
            Violation::CalendarCollectionLocationOk => ViolationView::CalendarCollectionLocationOk,
            Violation::ValidCalendarData => ViolationView::ValidCalendarData,
            Violation::InitializeCalendarCollection => ViolationView::InitializeCalendarCollection,
            Violation::SupportedCalendarData => ViolationView::SupportedCalendarData,
            Violation::ValidCalendarObjectResource => ViolationView::ValidCalendarObjectResource,
            Violation::SupportedCalendarComponent => ViolationView::SupportedCalendarComponent,
            Violation::NoUidConflict(h) => ViolationView::NoUidConflict(h@),
            Violation::MaxResourceSize => ViolationView::MaxResourceSize,
            Violation::MinDateTime => ViolationView::MinDateTime,
            Violation::MaxDateTime => ViolationView::MaxDateTime,
            Violation::MaxInstances => ViolationView::MaxInstances,
            Violation::MaxAttendeesPerInstance => ViolationView::MaxAttendeesPerInstance,
            Violation::ValidFilter => ViolationView::ValidFilter,
            Violation::SupportedFilter { comp, prop, param } => ViolationView::SupportedFilter {
                comp: views(comp@),
                prop: views(prop@),
                param: views(param@),
            },
            Violation::NumberOfMatchesWithinLimits => ViolationView::NumberOfMatchesWithinLimits,
        }
    }
}

/// A component type by its view: the types RFC 5545 names, or another name.
pub enum ComponentView {
    VCalendar,
    VJournal,
    VFreeBusy,
    VEvent,
    VTodo,
    VAlarm,
    VTimeZone,
    Unknown(Seq<char>),
}

/// The view of the component type a name stands for.
pub open spec fn component_view_of(v: Seq<char>) -> ComponentView {
    if v == "VCALENDAR"@ {
        ComponentView::VCalendar
    } else if v == "VJOURNAL"@ {
        ComponentView::VJournal
    } else if v == "VFREEBUSY"@ {
        ComponentView::VFreeBusy
    } else if v == "VEVENT"@ {
        ComponentView::VEvent
    } else if v == "VTODO"@ {
        ComponentView::VTodo
    } else if v == "VALARM"@ {
        ComponentView::VAlarm
    } else if v == "VTIMEZONE"@ {
        ComponentView::VTimeZone
    } else {
        ComponentView::Unknown(v)
    }
}

impl View for Component {
    type V = ComponentView;

    open spec fn view(&self) -> ComponentView {
        match self {
            Component::VCalendar => ComponentView::VCalendar,
            Component::VJournal => ComponentView::VJournal,
            Component::VFreeBusy => ComponentView::VFreeBusy,
            Component::VEvent => ComponentView::VEvent,
            Component::VTodo => ComponentView::VTodo,
            Component::VAlarm => ComponentView::VAlarm,
            Component::VTimeZone => ComponentView::VTimeZone,
            Component::Unknown(s) => ComponentView::Unknown(s@),
        }
    }
}

/// A component type a calendar collection can hold (RFC 4791, section
/// 5.2.3).
#[derive(Debug, PartialEq, Clone)]
pub struct CompSupport(pub Component);

impl View for CompSupport {
    type V = ComponentView;

    open spec fn view(&self) -> ComponentView {
        self.0@
    }
}

/// A media type of calendar data and its version.
#[derive(Debug, PartialEq, Clone)]
pub struct CalendarDataSupport {
    pub content_type: String,
    pub version: String,
}

impl View for CalendarDataSupport {
    type V = (Seq<char>, Seq<char>);

    open spec fn view(&self) -> (Seq<char>, Seq<char>) {
        (self.content_type@, self.version@)
    }
}

/// A kind of calendar data a collection accepts (RFC 4791, section 5.2.4).
#[derive(Debug, PartialEq, Clone)]
pub struct CalendarDataEmpty(pub Option<CalendarDataSupport>);

impl View for CalendarDataEmpty {
    type V = Option<(Seq<char>, Seq<char>)>;

    open spec fn view(&self) -> Option<(Seq<char>, Seq<char>)> {
        match self.0 {
            Some(m) => Some(m@),
            None => None,
        }
    }
}

/// Calendar data returned as a property value (RFC 4791, section 9.6).
#[derive(Debug, PartialEq, Clone)]
pub struct CalendarDataPayload {
    pub mime: Option<CalendarDataSupport>,
    pub payload: String,
}

impl View for CalendarDataPayload {
    type V = (Option<(Seq<char>, Seq<char>)>, Seq<char>);

    open spec fn view(&self) -> (Option<(Seq<char>, Seq<char>)>, Seq<char>) {
        (
            match self.mime {
                Some(m) => Some(m@),
                None => None,
            },
            self.payload@,
        )
    }
}

/// The CalDAV property values (RFC 4791, sections 5.2, 6.2 and 9.6).
#[derive(Debug, PartialEq, Clone)]
pub enum Property {
    CalendarHomeSet(dav::Href),
    CalendarDescription { lang: Option<String>, text: String },
    CalendarTimezone(String),
    SupportedCalendarComponentSet(Vec<CompSupport>),
    SupportedCalendarData(Vec<CalendarDataEmpty>),
    MaxResourceSize(u64),
    MinDateTime(UtcTime),
    MaxDateTime(UtcTime),
    MaxInstances(u64),
    MaxAttendeesPerInstance(u64),
    SupportedCollationSet(Vec<SupportedCollation>),
    CalendarData(CalendarDataPayload),
}

/// A CalDAV property value by its view.
pub enum PropertyView {
    CalendarHomeSet(Seq<char>),
    CalendarDescription { lang: Option<Seq<char>>, text: Seq<char> },
    CalendarTimezone(Seq<char>),
    SupportedCalendarComponentSet(Seq<ComponentView>),
    SupportedCalendarData(Seq<Option<(Seq<char>, Seq<char>)>>),
    MaxResourceSize(u64),
    MinDateTime(UtcTime),
    MaxDateTime(UtcTime),
    MaxInstances(u64),
    MaxAttendeesPerInstance(u64),
    SupportedCollationSet(Seq<CollationView>),
    CalendarData((Option<(Seq<char>, Seq<char>)>, Seq<char>)),
}

impl View for Property {
    type V = PropertyView;

    open spec fn view(&self) -> PropertyView {
        match self {
            Property::CalendarHomeSet(h) => PropertyView::CalendarHomeSet(h@),
            Property::CalendarDescription { lang, text } => PropertyView::CalendarDescription {
                lang: match lang {
                    Some(l) => Some(l@),
                    None => None,
                },
                text: text@,
            },
            Property::CalendarTimezone(t) => PropertyView::CalendarTimezone(t@),
            Property::SupportedCalendarComponentSet(v) => PropertyView::SupportedCalendarComponentSet(views(v@)),
            Property::SupportedCalendarData(v) => PropertyView::SupportedCalendarData(views(v@)),
            Property::MaxResourceSize(n) => PropertyView::MaxResourceSize(*n),
            Property::MinDateTime(t) => PropertyView::MinDateTime(*t),
            Property::MaxDateTime(t) => PropertyView::MaxDateTime(*t),
            Property::MaxInstances(n) => PropertyView::MaxInstances(*n),
            Property::MaxAttendeesPerInstance(n) => PropertyView::MaxAttendeesPerInstance(*n),
            Property::SupportedCollationSet(v) => PropertyView::SupportedCollationSet(views(v@)),
            Property::CalendarData(p) => PropertyView::CalendarData(p@),
        }
    }
}

// --- Views of the filters ---

/// A text match by its view.
pub struct TextMatchView {
    pub collation: Option<CollationView>,
    pub negate_condition: Option<bool>,
    pub text: Seq<char>,
}

impl View for TextMatch {
    type V = TextMatchView;

    open spec fn view(&self) -> TextMatchView {
        TextMatchView {
            collation: match self.collation {
                Some(c) => Some(c@),
                None => None,
            },
            negate_condition: self.negate_condition,
            text: self.text@,
        }
    }
}

/// What a parameter filter asks, by its view.
pub enum ParamFilterMatchView {
    IsNotDefined,
    Match(TextMatchView),
}

impl View for ParamFilterMatch {
    type V = ParamFilterMatchView;

    open spec fn view(&self) -> ParamFilterMatchView {
        match self {
            ParamFilterMatch::IsNotDefined => ParamFilterMatchView::IsNotDefined,
            ParamFilterMatch::Match(t) => ParamFilterMatchView::Match(t@),
        }
    }
}

/// A parameter filter by its view.
pub struct ParamFilterView {
    pub name: Seq<char>,
    pub rules: Option<ParamFilterMatchView>,
}

impl View for ParamFilter {
    type V = ParamFilterView;

    open spec fn view(&self) -> ParamFilterView {
        ParamFilterView {
            name: self.name.0@,
            rules: match self.additional_rules {
                Some(r) => Some(r@),
                None => None,
            },
        }
    }
}

/// A time range or a text, by its view.
pub enum TimeOrTextView {
    Time(TimeRange),
    Text(TextMatchView),
}

impl View for TimeOrText {
    type V = TimeOrTextView;

    open spec fn view(&self) -> TimeOrTextView {
        match self {
            TimeOrText::Time(t) => TimeOrTextView::Time(*t),
            TimeOrText::Text(t) => TimeOrTextView::Text(t@),
        }
    }
}

/// What a property filter asks, by its view.
pub enum PropFilterRulesView {
    IsNotDefined,
    Match { time_or_text: Option<TimeOrTextView>, param_filter: Seq<ParamFilterView> },
}

impl View for PropFilterRules {
    type V = PropFilterRulesView;

    open spec fn view(&self) -> PropFilterRulesView {
        match self {
            PropFilterRules::IsNotDefined => PropFilterRulesView::IsNotDefined,
            PropFilterRules::Match(m) => PropFilterRulesView::Match {
                time_or_text: match m.time_or_text {
                    Some(t) => Some(t@),
                    None => None,
                },
                param_filter: views(m.param_filter@),
            },
        }
    }
}

/// A property filter by its view.
pub struct PropFilterView {
    pub name: Seq<char>,
    pub rules: Option<PropFilterRulesView>,
}

impl View for PropFilter {
    type V = PropFilterView;

    open spec fn view(&self) -> PropFilterView {
        PropFilterView {
            name: self.name.0@,
            rules: match self.additional_rules {
                Some(r) => Some(r@),
                None => None,
            },
        }
    }
}

/// What a component filter asks, by its view.
pub enum CompFilterRulesView {
    IsNotDefined,
    Matches { time_range: Option<TimeRange>, prop_filter: Seq<PropFilterView>, comp_filter: Seq<CompFilterView> },
}

/// A component filter by its view.
pub struct CompFilterView {
    pub name: ComponentView,
    pub rules: Option<CompFilterRulesView>,
}

/// The view of a component filter, its nested filters included.
pub open spec fn comp_filter_view(c: CompFilter) -> CompFilterView
    decreases c,
{
    CompFilterView { name: c.name@, rules: comp_rules_view(c.additional_rules) }
}

/// The view of the rules of a component filter, if it has any.
pub open spec fn comp_rules_view(r: Option<CompFilterRules>) -> Option<CompFilterRulesView>
    decreases r,
{
    match r {
        None => None,
        Some(CompFilterRules::IsNotDefined) => Some(CompFilterRulesView::IsNotDefined),
        Some(CompFilterRules::Matches(m)) => Some(
            CompFilterRulesView::Matches {
                time_range: m.time_range,
                prop_filter: views(m.prop_filter@),
                comp_filter: comp_filters_view(m.comp_filter@),
            },
        ),
    }
}

/// The views of a list of component filters.
pub open spec fn comp_filters_view(s: Seq<CompFilter>) -> Seq<CompFilterView>
    decreases s,
{
    if s.len() == 0 {
        Seq::empty()
    } else {
        comp_filters_view(s.drop_last()).push(comp_filter_view(s.last()))
    }
}

impl View for CompFilter {
    type V = CompFilterView;

    open spec fn view(&self) -> CompFilterView {
        comp_filter_view(*self)
    }
}

// --- Views of the calendar-data request ---

/// A property to return, by its view.
pub struct CalPropView {
    pub name: Seq<char>,
    pub novalue: Option<bool>,
}

impl View for CalProp {
    type V = CalPropView;

    open spec fn view(&self) -> CalPropView {
        CalPropView { name: self.name.0@, novalue: self.novalue }
    }
}

/// Which properties to return, by its view.
pub enum PropKindView {
    AllProp,
    Prop(Seq<CalPropView>),
}

impl View for PropKind {
    type V = PropKindView;

    open spec fn view(&self) -> PropKindView {
        match self {
            PropKind::AllProp => PropKindView::AllProp,
            PropKind::Prop(v) => PropKindView::Prop(views(v@)),
        }
    }
}

/// Which sub-components to return, by its view.
pub enum CompKindView {
    AllComp,
    Comp(Seq<CompView>),
}

/// The part of a component to return, by its view.
pub struct CompView {
    pub name: ComponentView,
    pub prop_kind: Option<PropKindView>,
    pub comp_kind: Option<CompKindView>,
}

/// The view of a component selection, its nested selections included.
pub open spec fn comp_view(c: Comp) -> CompView
    decreases c,
{
    CompView {
        name: c.name@,
        prop_kind: match c.prop_kind {
            Some(p) => Some(p@),
            None => None,
        },
        comp_kind: comp_kind_view(c.comp_kind),
    }
}

/// The view of the sub-component selection, if there is one.
pub open spec fn comp_kind_view(k: Option<CompKind>) -> Option<CompKindView>
    decreases k,
{
    match k {
        None => None,
        Some(CompKind::AllComp) => Some(CompKindView::AllComp),
        Some(CompKind::Comp(v)) => Some(CompKindView::Comp(comps_view(v@))),
    }
}

/// The views of a list of component selections.
pub open spec fn comps_view(s: Seq<Comp>) -> Seq<CompView>
    decreases s,
{
    if s.len() == 0 {
        Seq::empty()
    } else {
        comps_view(s.drop_last()).push(comp_view(s.last()))
    }
}

/// The views of a list of component selections, element by element.
pub proof fn lemma_comps_view(s: Seq<Comp>)
    ensures
        comps_view(s).len() == s.len(),
        forall|i: int| 0 <= i < s.len() ==> #[trigger] comps_view(s)[i] == comp_view(s[i]),
    decreases s.len(),
{
    if s.len() > 0 {
        lemma_comps_view(s.drop_last());
    }
}

impl View for Comp {
    type V = CompView;

    open spec fn view(&self) -> CompView {
        comp_view(*self)
    }
}

/// A component selection is larger than each selection nested in it.
pub(crate) proof fn lemma_comp_decreases(c: Comp, v: Vec<Comp>, i: int)
    requires
        c.comp_kind == Some(CompKind::Comp(v)),
        0 <= i < v@.len(),
    ensures
        decreases_to!(c => v@[i]),
{
    let k = c.comp_kind;
    assert(decreases_to!(c => k));
    let kk = k->0;
    assert(decreases_to!(k => kk));
    assert(decreases_to!(kk => kk->Comp_0));
    assert(kk->Comp_0 == v);
    assert(decreases_to!(v => v@));
    assert(decreases_to!(v@ => v@[i]));
}

/// A copy of a component selection, its nested selections included.
fn clone_comp(c: &Comp) -> (r: Comp)
    decreases *c,
{
    let comp_kind = match &c.comp_kind {
        None => None,
        Some(CompKind::AllComp) => Some(CompKind::AllComp),
        Some(CompKind::Comp(v)) => {
            let mut out: Vec<Comp> = Vec::new();
            let mut i: usize = 0;
            while i < v.len()
                invariant
                    i <= v@.len(),
                    c.comp_kind == Some(CompKind::Comp(*v)),
                decreases v@.len() - i,
            {
                proof {
                    lemma_comp_decreases(*c, *v, i as int);
                }
                out.push(clone_comp(&v[i]));
                i = i + 1;
            }
            Some(CompKind::Comp(out))
        },
    };
    Comp { name: c.name.clone(), prop_kind: c.prop_kind.clone(), comp_kind }
}

impl Clone for Comp {
    fn clone(&self) -> Self {
        clone_comp(self)
    }
}

/// Recurring components expanded to their instances in a time span.
#[derive(Debug, PartialEq, Clone)]
pub struct Expand(pub UtcTime, pub UtcTime);

/// The recurrence set limited to the instances that overlap a time span.
#[derive(Debug, PartialEq, Clone)]
pub struct LimitRecurrenceSet(pub UtcTime, pub UtcTime);

/// Free-busy data limited to a time span.
#[derive(Debug, PartialEq, Clone)]
pub struct LimitFreebusySet(pub UtcTime, pub UtcTime);

/// How recurring components are returned.
#[derive(Debug, PartialEq, Clone)]
pub enum RecurrenceModifier {
    Expand(Expand),
    LimitRecurrenceSet(LimitRecurrenceSet),
}

impl View for Expand {
    type V = (UtcTime, UtcTime);

    open spec fn view(&self) -> (UtcTime, UtcTime) {
        (self.0, self.1)
    }
}

impl View for LimitRecurrenceSet {
    type V = (UtcTime, UtcTime);

    open spec fn view(&self) -> (UtcTime, UtcTime) {
        (self.0, self.1)
    }
}

impl View for LimitFreebusySet {
    type V = (UtcTime, UtcTime);

    open spec fn view(&self) -> (UtcTime, UtcTime) {
        (self.0, self.1)
    }
}

impl View for RecurrenceModifier {
    type V = RecurrenceModifier;

    open spec fn view(&self) -> RecurrenceModifier {
        *self
    }
}

/// The calendar data a request asks for (RFC 4791, section 9.6).
#[derive(Debug, PartialEq, Clone)]
pub struct CalendarDataRequest {
    pub mime: Option<CalendarDataSupport>,
    pub comp: Option<Comp>,
    pub recurrence: Option<RecurrenceModifier>,
    pub limit_freebusy_set: Option<LimitFreebusySet>,
}

/// A calendar-data request by its view.
pub struct CalendarDataRequestView {
    pub mime: Option<(Seq<char>, Seq<char>)>,
    pub comp: Option<CompView>,
    pub recurrence: Option<RecurrenceModifier>,
    pub limit_freebusy_set: Option<(UtcTime, UtcTime)>,
}

impl View for CalendarDataRequest {
    type V = CalendarDataRequestView;

    open spec fn view(&self) -> CalendarDataRequestView {
        CalendarDataRequestView {
            mime: match self.mime {
                Some(m) => Some(m@),
                None => None,
            },
            comp: match self.comp {
                Some(c) => Some(c@),
                None => None,
            },
            recurrence: self.recurrence,
            limit_freebusy_set: match self.limit_freebusy_set {
                Some(l) => Some(l@),
                None => None,
            },
        }
    }
}

// --- Reports and MKCALENDAR ---

/// A time zone, as iCalendar text (RFC 4791, section 9.8).
#[derive(Debug, PartialEq, Clone)]
pub struct TimeZone(pub String);

impl View for TimeZone {
    type V = Seq<char>;

    open spec fn view(&self) -> Seq<char> {
        self.0@
    }
}

/// The filter of a calendar query: one component filter (RFC 4791,
/// section 9.7).
#[derive(Debug, PartialEq, Clone)]
pub struct Filter(pub CompFilter);

impl View for Filter {
    type V = CompFilterView;

    open spec fn view(&self) -> CompFilterView {
        self.0@
    }
}

/// A free-busy query: the time range to report on (RFC 4791, section 7.10).
#[derive(Debug, PartialEq, Clone)]
pub struct FreeBusyQuery(pub TimeRange);

impl View for FreeBusyQuery {
    type V = TimeRange;

    open spec fn view(&self) -> TimeRange {
        self.0
    }
}

/// Which properties a calendar report returns.
#[derive(Debug, PartialEq, Clone)]
pub enum CalendarSelector<E: Extension> {
    AllProp,
    PropName,
    Prop(dav::PropName<E>),
}

/// A selector by its view.
pub enum CalendarSelectorView<Q> {
    AllProp,
    PropName,
    Prop(Seq<DavPropertyRequestView<Q>>),
}

impl<E: Extension> View for CalendarSelector<E> where E::PropertyRequest: View {
    type V = CalendarSelectorView<<E::PropertyRequest as View>::V>;

    open spec fn view(&self) -> Self::V {
        match self {
            CalendarSelector::AllProp => CalendarSelectorView::AllProp,
            CalendarSelector::PropName => CalendarSelectorView::PropName,
            CalendarSelector::Prop(p) => CalendarSelectorView::Prop(p@),
        }
    }
}

/// The calendar-query report (RFC 4791, section 7.8).
#[derive(Debug, PartialEq, Clone)]
pub struct CalendarQuery<E: Extension> {
    pub selector: Option<CalendarSelector<E>>,
    pub filter: Filter,
    pub timezone: Option<TimeZone>,
}

/// A calendar query by its view.
pub struct CalendarQueryView<Q> {
    pub selector: Option<CalendarSelectorView<Q>>,
    pub filter: CompFilterView,
    pub timezone: Option<Seq<char>>,
}

impl<E: Extension> View for CalendarQuery<E> where E::PropertyRequest: View {
    type V = CalendarQueryView<<E::PropertyRequest as View>::V>;

    open spec fn view(&self) -> Self::V {
        CalendarQueryView { selector: opt_view(self.selector), filter: self.filter@, timezone: opt_view(self.timezone) }
    }
}

/// The calendar-multiget report (RFC 4791, section 7.9).
#[derive(Debug, PartialEq, Clone)]
pub struct CalendarMultiget<E: Extension> {
    pub selector: Option<CalendarSelector<E>>,
    pub href: Vec<dav::Href>,
}

/// A calendar multiget by its view.
pub struct CalendarMultigetView<Q> {
    pub selector: Option<CalendarSelectorView<Q>>,
    pub href: Seq<Seq<char>>,
}

impl<E: Extension> View for CalendarMultiget<E> where E::PropertyRequest: View {
    type V = CalendarMultigetView<<E::PropertyRequest as View>::V>;

    open spec fn view(&self) -> Self::V {
        CalendarMultigetView { selector: opt_view(self.selector), href: views(self.href@) }
    }
}

/// A CalDAV report request.
#[derive(Debug, PartialEq, Clone)]
pub enum ReportType<E: Extension> {
    Query(CalendarQuery<E>),
    Multiget(CalendarMultiget<E>),
    FreeBusy(FreeBusyQuery),
}

/// A CalDAV report by its view.
pub enum ReportTypeView<Q> {
    Query(CalendarQueryView<Q>),
    Multiget(CalendarMultigetView<Q>),
    FreeBusy(TimeRange),
}

impl<E: Extension> View for ReportType<E> where E::PropertyRequest: View {
    type V = ReportTypeView<<E::PropertyRequest as View>::V>;

    open spec fn view(&self) -> Self::V {
        match self {
            ReportType::Query(q) => ReportTypeView::Query(q@),
            ReportType::Multiget(m) => ReportTypeView::Multiget(m@),
            ReportType::FreeBusy(f) => ReportTypeView::FreeBusy(f@),
        }
    }
}

/// The MKCALENDAR request body: the properties to set on the new
/// calendar (RFC 4791, section 5.3.1).
#[derive(Debug, PartialEq, Clone)]
pub struct MkCalendar<E: Extension>(pub dav::PropSet<E>);

impl<E: Extension> View for MkCalendar<E> where E::Property: View, E::ResourceType: View {
    type V = Seq<PropertyValueView<<E::Property as View>::V, <E::ResourceType as View>::V>>;

    open spec fn view(&self) -> Self::V {
        self.0@
    }
}

/// The MKCALENDAR response body: how each property fared.
#[derive(Debug, PartialEq, Clone)]
pub struct MkCalendarResponse<E: Extension>(pub Vec<dav::PropStat<E>>);

impl<E: Extension> View for MkCalendarResponse<E> where
    E::PropertyRequest: View,
    E::Property: View,
    E::ResourceType: View,
    E::Error: View,
 {
    type V = Seq<
        PropStatView<
            <E::PropertyRequest as View>::V,
            <E::Property as View>::V,
            <E::ResourceType as View>::V,
            <E::Error as View>::V,
        >,
    >;

    open spec fn view(&self) -> Self::V {
        views(self.0@)
    }
}

/// A collation a collection supports (RFC 4791, section 7.5.1).
#[derive(Debug, PartialEq, Clone)]
pub struct SupportedCollation(pub Collation);

impl View for SupportedCollation {
    type V = CollationView;

    open spec fn view(&self) -> CollationView {
        self.0@
    }
}

} // verus!
