//! Reading the CalDAV names, values, condition codes and time ranges
//! (RFC 4791).
use vstd::prelude::*;

use super::acldecoder::{find_close, find_close_spec};
use super::caltypes::{
    CalendarMultiget, CalendarMultigetView, CalendarQuery, CalendarQueryView, CalendarSelector, CalendarSelectorView,
    Filter, FreeBusyQuery, MkCalendar, MkCalendarResponse, ReportType, ReportTypeView, SupportedCollation, TimeZone,
    CalendarDataRequest, CalendarDataRequestView, Expand, LimitFreebusySet, LimitRecurrenceSet, RecurrenceModifier,
    comp_kind_view, comps_view, lemma_comps_view, CalProp, CalPropView, Comp, CompKind, CompKindView, CompView, PropKind,
    PropKindView,
    comp_filters_view, comp_rules_view, CompFilter, CompFilterMatch, CompFilterRules, CompFilterRulesView, CompFilterView,
    collation_view_of, Collation, ComponentProperty, ParamFilter, ParamFilterMatch, ParamFilterMatchView,
    ParamFilterView, PropFilter, PropFilterMatch, PropFilterRules, PropFilterRulesView, PropFilterView,
    PropertyParameter, TextMatch, TextMatchView, TimeOrText, TimeOrTextView, CollationView,
    component_view_of, CalendarDataEmpty, CalendarDataPayload, CalendarDataSupport, CompSupport, Component, ComponentView,
    Property, PropertyRequest, PropertyRequestView, PropertyView, ResourceType, TimeRange, UtcTime, Violation, ViolationView, UTC_DATETIME_FMT, utc_lt, utc_less,
};
use super::coredecoder::{collect_close, collect_close_spec, open_first, open_first_spec};
use super::error::ParsingError;
use super::types::{Extension, Href, PropName, PropSet, PropStat};
use super::xml::find_spec;
use super::xml::{
    atoms_spec, close_spec, keys_view, lemma_skip, maybe_find_spec, maybe_push_spec, maybe_read_spec, open_spec,
    opt_view, res_view, parent_has_child_spec, prev_attr_spec, skip_spec, tag_string_spec, views, QRead, RState, Reader, XmlEvent,
    CAL_URN, DAV_URN,
};
use crate::ical::parser::{naive_datetime_parse, parse_naive_utc};
use crate::text::{parse_u64, str_eq, u64_of};

verus! {

/// The calendar resource type.
pub open spec fn cal_resource_type_spec(evs: Seq<XmlEvent>, st: RState) -> (Result<ResourceType, ParsingError>, RState) {
    match atoms_spec(evs, st, CAL_URN@, seq!["calendar"@], 0) {
        (Ok(_), s) => (Ok(ResourceType::Calendar), s),
        (Err(e), s) => (Err(e), s),
    }
}

impl QRead for ResourceType {
    open spec fn qread_spec(evs: Seq<XmlEvent>, st: RState) -> (Result<ResourceType, ParsingError>, RState) {
        cal_resource_type_spec(evs, st)
    }

    fn qread(xml: &mut Reader) -> (r: Result<Self, ParsingError>) {
        let keys: Vec<&str> = vec!["calendar"];
        assert(keys_view(keys@) =~= seq!["calendar"@]);
        xml.read_atom(CAL_URN, &keys)?;
        Ok(ResourceType::Calendar)
    }
}

/// The CalDAV property names, in the order they are tried.
pub open spec fn cal_property_names() -> Seq<Seq<char>> {
    seq![
        "calendar-home-set"@,
        "calendar-description"@,
        "calendar-timezone"@,
        "supported-calendar-component-set"@,
        "supported-calendar-data"@,
        "max-resource-size"@,
        "min-date-time"@,
        "max-date-time"@,
        "max-instances"@,
        "max-attendees-per-instance"@,
        "supported-collation-set"@,
    ]
}

/// The property name at a position of `cal_property_names`.
pub open spec fn cal_property_at(i: int) -> PropertyRequestView {
    if i == 0 {
        PropertyRequestView::CalendarHomeSet
    } else if i == 1 {
        PropertyRequestView::CalendarDescription
    } else if i == 2 {
        PropertyRequestView::CalendarTimezone
    } else if i == 3 {
        PropertyRequestView::SupportedCalendarComponentSet
    } else if i == 4 {
        PropertyRequestView::SupportedCalendarData
    } else if i == 5 {
        PropertyRequestView::MaxResourceSize
    } else if i == 6 {
        PropertyRequestView::MinDateTime
    } else if i == 7 {
        PropertyRequestView::MaxDateTime
    } else if i == 8 {
        PropertyRequestView::MaxInstances
    } else if i == 9 {
        PropertyRequestView::MaxAttendeesPerInstance
    } else {
        PropertyRequestView::SupportedCollationSet
    }
}

/// A CalDAV property name: the first of `cal_property_names` that is the
/// current element, else a calendar-data request; neither is
/// `Recoverable`.
pub open spec fn cal_property_request_spec(evs: Seq<XmlEvent>, st: RState) -> (
    Result<PropertyRequestView, ParsingError>,
    RState,
) {
    match atoms_spec(evs, st, CAL_URN@, cal_property_names(), 0) {
        (Ok(i), s) => (Ok(cal_property_at(i)), s),
        (Err(ParsingError::Recoverable), s) => match maybe_read_spec::<CalendarDataRequest>(evs, s, None, false) {
            (Err(e), s1, _, _) => (Err(e), s1),
            (Ok(_), s1, Some(a), _) => (Ok(PropertyRequestView::CalendarData(a)), s1),
            (Ok(_), s1, None, _) => (Err(ParsingError::Recoverable), s1),
        },
        (Err(e), s) => (Err(e), s),
    }
}

impl QRead for PropertyRequest {
    open spec fn qread_spec(evs: Seq<XmlEvent>, st: RState) -> (Result<PropertyRequestView, ParsingError>, RState) {
        cal_property_request_spec(evs, st)
    }

    fn qread(xml: &mut Reader) -> (r: Result<Self, ParsingError>) {
        let keys: Vec<&str> = vec![
            "calendar-home-set",
            "calendar-description",
            "calendar-timezone",
            "supported-calendar-component-set",
            "supported-calendar-data",
            "max-resource-size",
            "min-date-time",
            "max-date-time",
            "max-instances",
            "max-attendees-per-instance",
            "supported-collation-set",
        ];
        assert(keys_view(keys@) =~= cal_property_names());
        let i = match xml.read_atom(CAL_URN, &keys) {
            Ok(i) => i,
            Err(ParsingError::Recoverable) => {
                let mut dirty = false;
                let mut m_cdr: Option<CalendarDataRequest> = None;
                xml.maybe_read(&mut m_cdr, &mut dirty)?;
                return match m_cdr {
                    Some(a) => Ok(PropertyRequest::CalendarData(a)),
                    None => Err(ParsingError::Recoverable),
                };
            },
            Err(e) => return Err(e),
        };
        Ok(
            if i == 0 {
                PropertyRequest::CalendarHomeSet
            } else if i == 1 {
                PropertyRequest::CalendarDescription
            } else if i == 2 {
                PropertyRequest::CalendarTimezone
            } else if i == 3 {
                PropertyRequest::SupportedCalendarComponentSet
            } else if i == 4 {
                PropertyRequest::SupportedCalendarData
            } else if i == 5 {
                PropertyRequest::MaxResourceSize
            } else if i == 6 {
                PropertyRequest::MinDateTime
            } else if i == 7 {
                PropertyRequest::MaxDateTime
            } else if i == 8 {
                PropertyRequest::MaxInstances
            } else if i == 9 {
                PropertyRequest::MaxAttendeesPerInstance
            } else {
                PropertyRequest::SupportedCollationSet
            },
        )
    }
}

/// The DAV condition codes a CalDAV error may carry, tried first.
pub open spec fn cal_violation_dav_names() -> Seq<Seq<char>> {
    seq!["resource-must-be-null"@, "need-privileges"@]
}

/// The CalDAV condition codes without content tried before
/// `no-uid-conflict`.
pub open spec fn cal_violation_names_before() -> Seq<Seq<char>> {
    seq![
        "calendar-collection-location-ok"@,
        "valid-calendar-data"@,
        "initialize-calendar-collection"@,
        "supported-calendar-data"@,
        "valid-calendar-object-resource"@,
        "supported-calendar-component"@,
    ]
}

/// The CalDAV condition codes without content tried after
/// `no-uid-conflict`.
pub open spec fn cal_violation_names_after() -> Seq<Seq<char>> {
    seq![
        "max-resource-size"@,
        "min-date-time"@,
        "max-date-time"@,
        "max-instances"@,
        "max-attendees-per-instance"@,
        "valid-filter"@,
    ]
}

/// The code at a position of `cal_violation_names_before`.
pub open spec fn cal_violation_before_at(i: int) -> ViolationView {
    if i == 0 {
        ViolationView::CalendarCollectionLocationOk
    } else if i == 1 {
        ViolationView::ValidCalendarData
    } else if i == 2 {
        ViolationView::InitializeCalendarCollection
    } else if i == 3 {
        ViolationView::SupportedCalendarData
    } else if i == 4 {
        ViolationView::ValidCalendarObjectResource
    } else {
        ViolationView::SupportedCalendarComponent
    }
}

/// The code at a position of `cal_violation_names_after`.
pub open spec fn cal_violation_after_at(i: int) -> ViolationView {
    if i == 0 {
        ViolationView::MaxResourceSize
    } else if i == 1 {
        ViolationView::MinDateTime
    } else if i == 2 {
        ViolationView::MaxDateTime
    } else if i == 3 {
        ViolationView::MaxInstances
    } else if i == 4 {
        ViolationView::MaxAttendeesPerInstance
    } else {
        ViolationView::ValidFilter
    }
}

/// A CalDAV condition code, tried in this order: the DAV codes
/// `resource-must-be-null` and `need-privileges`, the codes of
/// `cal_violation_names_before`, `no-uid-conflict` with its reference, the
/// codes of `cal_violation_names_after`, `supported-filter` with the
/// filters it holds, then `number-of-matches-within-limits`; none is
/// `Recoverable`.
pub open spec fn cal_violation_spec(evs: Seq<XmlEvent>, st: RState) -> (Result<ViolationView, ParsingError>, RState) {
    match atoms_spec(evs, st, DAV_URN@, cal_violation_dav_names(), 0) {
        (Ok(i), s) => (
            Ok(
                if i == 0 {
                    ViolationView::ResourceMustBeNull
                } else {
                    ViolationView::NeedPrivileges
                },
            ),
            s,
        ),
        (Err(ParsingError::Recoverable), s0) => match atoms_spec(evs, s0, CAL_URN@, cal_violation_names_before(), 0) {
            (Ok(i), s) => (Ok(cal_violation_before_at(i)), s),
            (Err(ParsingError::Recoverable), s1) => match open_spec(evs, s1, CAL_URN@, "no-uid-conflict"@) {
                (Ok(_), s2) => match find_close_spec::<Href>(evs, s2) {
                    (Ok(h), s) => (Ok(ViolationView::NoUidConflict(h)), s),
                    (Err(e), s) => (Err(e), s),
                },
                (Err(ParsingError::Recoverable), s2) => match atoms_spec(
                    evs,
                    s2,
                    CAL_URN@,
                    cal_violation_names_after(),
                    0,
                ) {
                    (Ok(i), s) => (Ok(cal_violation_after_at(i)), s),
                    (Err(ParsingError::Recoverable), s3) => match open_spec(evs, s3, CAL_URN@, "supported-filter"@) {
                        (Ok(_), s4) => match supported_filter_loop(evs, s4, Seq::empty(), Seq::empty(), Seq::empty()) {
                            (Ok((c, p, q)), s5) => match close_spec(evs, s5) {
                                (Ok(_), s) => (Ok(ViolationView::SupportedFilter { comp: c, prop: p, param: q }), s),
                                (Err(e), s) => (Err(e), s),
                            },
                            (Err(e), s) => (Err(e), s),
                        },
                        (Err(ParsingError::Recoverable), s4) => match atoms_spec(
                            evs,
                            s4,
                            CAL_URN@,
                            seq!["number-of-matches-within-limits"@],
                            0,
                        ) {
                            (Ok(_), s) => (Ok(ViolationView::NumberOfMatchesWithinLimits), s),
                            (Err(e), s) => (Err(e), s),
                        },
                        (Err(e), s) => (Err(e), s),
                    },
                    (Err(e), s) => (Err(e), s),
                },
                (Err(e), s) => (Err(e), s),
            },
            (Err(e), s) => (Err(e), s),
        },
        (Err(e), s) => (Err(e), s),
    }
}

impl QRead for Violation {
    open spec fn qread_spec(evs: Seq<XmlEvent>, st: RState) -> (Result<ViolationView, ParsingError>, RState) {
        cal_violation_spec(evs, st)
    }

    #[verifier::spinoff_prover]
    #[verifier::rlimit(80)]
    fn qread(xml: &mut Reader) -> (r: Result<Self, ParsingError>) {
        let dav_keys: Vec<&str> = vec!["resource-must-be-null", "need-privileges"];
        assert(keys_view(dav_keys@) =~= cal_violation_dav_names());
        match xml.read_atom(DAV_URN, &dav_keys) {
            Ok(i) => {
                return Ok(
                    if i == 0 {
                        Violation::ResourceMustBeNull
                    } else {
                        Violation::NeedPrivileges
                    },
                );
            },
            Err(ParsingError::Recoverable) => {},
            Err(e) => return Err(e),
        }
        let before: Vec<&str> = vec![
            "calendar-collection-location-ok",
            "valid-calendar-data",
            "initialize-calendar-collection",
            "supported-calendar-data",
            "valid-calendar-object-resource",
            "supported-calendar-component",
        ];
        assert(keys_view(before@) =~= cal_violation_names_before());
        match xml.read_atom(CAL_URN, &before) {
            Ok(i) => {
                return Ok(
                    if i == 0 {
                        Violation::CalendarCollectionLocationOk
                    } else if i == 1 {
                        Violation::ValidCalendarData
                    } else if i == 2 {
                        Violation::InitializeCalendarCollection
                    } else if i == 3 {
                        Violation::SupportedCalendarData
                    } else if i == 4 {
                        Violation::ValidCalendarObjectResource
                    } else {
                        Violation::SupportedCalendarComponent
                    },
                );
            },
            Err(ParsingError::Recoverable) => {},
            Err(e) => return Err(e),
        }
        if xml.maybe_open(CAL_URN, "no-uid-conflict")? {
            let href = find_close::<Href>(xml)?;
            return Ok(Violation::NoUidConflict(href));
        }
        let after: Vec<&str> = vec![
            "max-resource-size",
            "min-date-time",
            "max-date-time",
            "max-instances",
            "max-attendees-per-instance",
            "valid-filter",
        ];
        assert(keys_view(after@) =~= cal_violation_names_after());
        match xml.read_atom(CAL_URN, &after) {
            Ok(i) => {
                return Ok(
                    if i == 0 {
                        Violation::MaxResourceSize
                    } else if i == 1 {
                        Violation::MinDateTime
                    } else if i == 2 {
                        Violation::MaxDateTime
                    } else if i == 3 {
                        Violation::MaxInstances
                    } else if i == 4 {
                        Violation::MaxAttendeesPerInstance
                    } else {
                        Violation::ValidFilter
                    },
                );
            },
            Err(ParsingError::Recoverable) => {},
            Err(e) => return Err(e),
        }
        if xml.maybe_open(CAL_URN, "supported-filter")? {
            let (comp, prop, param) = read_supported_filter(xml)?;
            xml.close()?;
            return Ok(Violation::SupportedFilter { comp, prop, param });
        }
        let last: Vec<&str> = vec!["number-of-matches-within-limits"];
        assert(keys_view(last@) =~= seq!["number-of-matches-within-limits"@]);
        xml.read_atom(CAL_URN, &last)?;
        Ok(Violation::NumberOfMatchesWithinLimits)
    }
}

/// The media type and version of calendar data, from the attributes of
/// the element just opened: only when both are there.
pub open spec fn mime_attrs(evs: Seq<XmlEvent>, st: RState) -> Option<(Seq<char>, Seq<char>)> {
    match (prev_attr_spec(evs, st, "content-type"@), prev_attr_spec(evs, st, "version"@)) {
        (Some(c), Some(v)) => Some((c, v)),
        _ => None,
    }
}

/// Reads the media type and version attributes of the element just
/// opened; see `mime_attrs`.
fn read_mime(xml: &Reader) -> (r: Option<CalendarDataSupport>)
    requires
        xml.wf(),
    ensures
        match r {
            Some(m) => mime_attrs(xml.evs(), xml.st()) == Some(m@),
            None => mime_attrs(xml.evs(), xml.st()) is None,
        },
{
    match (xml.prev_attr("content-type"), xml.prev_attr("version")) {
        (Some(content_type), Some(version)) => Some(CalendarDataSupport { content_type, version }),
        _ => None,
    }
}

/// `<C:comp name=".."/>`: a component type a collection can hold. The name
/// is required.
pub open spec fn comp_support_spec(evs: Seq<XmlEvent>, st: RState) -> (Result<ComponentView, ParsingError>, RState) {
    match open_spec(evs, st, CAL_URN@, "comp"@) {
        (Err(e), s) => (Err(e), s),
        (Ok(_), s1) => match prev_attr_spec(evs, s1, "name"@) {
            None => (Err(ParsingError::MissingAttribute), s1),
            Some(n) => match close_spec(evs, s1) {
                (Err(e), s) => (Err(e), s),
                (Ok(_), s2) => (Ok(component_view_of(n)), s2),
            },
        },
    }
}

impl QRead for CompSupport {
    open spec fn qread_spec(evs: Seq<XmlEvent>, st: RState) -> (Result<ComponentView, ParsingError>, RState) {
        comp_support_spec(evs, st)
    }

    fn qread(xml: &mut Reader) -> (r: Result<Self, ParsingError>) {
        xml.open(CAL_URN, "comp")?;
        let name = match xml.prev_attr("name") {
            None => return Err(ParsingError::MissingAttribute),
            Some(n) => Component::new(n),
        };
        xml.close()?;
        Ok(CompSupport(name))
    }
}

/// `<C:calendar-data/>` in a list of supported data: its media type and
/// version.
pub open spec fn calendar_data_empty_spec(evs: Seq<XmlEvent>, st: RState) -> (
    Result<Option<(Seq<char>, Seq<char>)>, ParsingError>,
    RState,
) {
    match open_spec(evs, st, CAL_URN@, "calendar-data"@) {
        (Err(e), s) => (Err(e), s),
        (Ok(_), s1) => match close_spec(evs, s1) {
            (Err(e), s) => (Err(e), s),
            (Ok(_), s2) => (Ok(mime_attrs(evs, s1)), s2),
        },
    }
}

impl QRead for CalendarDataEmpty {
    open spec fn qread_spec(evs: Seq<XmlEvent>, st: RState) -> (
        Result<Option<(Seq<char>, Seq<char>)>, ParsingError>,
        RState,
    ) {
        calendar_data_empty_spec(evs, st)
    }

    fn qread(xml: &mut Reader) -> (r: Result<Self, ParsingError>) {
        xml.open(CAL_URN, "calendar-data")?;
        let mime = read_mime(xml);
        xml.close()?;
        Ok(CalendarDataEmpty(mime))
    }
}

/// `<C:calendar-data>` in a response: the calendar data it holds, with its
/// media type and version.
pub open spec fn calendar_data_payload_spec(evs: Seq<XmlEvent>, st: RState) -> (
    Result<(Option<(Seq<char>, Seq<char>)>, Seq<char>), ParsingError>,
    RState,
) {
    match open_spec(evs, st, CAL_URN@, "calendar-data"@) {
        (Err(e), s) => (Err(e), s),
        (Ok(_), s1) => match tag_string_spec(evs, s1) {
            (Err(e), s) => (Err(e), s),
            (Ok(t), s2) => match close_spec(evs, s2) {
                (Err(e), s) => (Err(e), s),
                (Ok(_), s3) => (Ok((mime_attrs(evs, s1), t)), s3),
            },
        },
    }
}

impl QRead for CalendarDataPayload {
    open spec fn qread_spec(evs: Seq<XmlEvent>, st: RState) -> (
        Result<(Option<(Seq<char>, Seq<char>)>, Seq<char>), ParsingError>,
        RState,
    ) {
        calendar_data_payload_spec(evs, st)
    }

    fn qread(xml: &mut Reader) -> (r: Result<Self, ParsingError>) {
        xml.open(CAL_URN, "calendar-data")?;
        let mime = read_mime(xml);
        let payload = xml.tag_string()?;
        xml.close()?;
        Ok(CalendarDataPayload { mime, payload })
    }
}

/// The CalDAV property elements with a value, in the order they are tried.
pub open spec fn cal_value_names() -> Seq<Seq<char>> {
    seq![
        "calendar-home-set"@,
        "calendar-description"@,
        "calendar-timezone"@,
        "supported-calendar-component-set"@,
        "supported-calendar-data"@,
        "max-resource-size"@,
        "max-date-time"@,
        "max-instances"@,
        "max-attendees-per-instance"@,
        "supported-collation-set"@,
    ]
}

/// After a text that should be a count: the count, then the element
/// closed; a text that is no count fails with `Int` before the element
/// closes.
pub open spec fn cal_count_spec(evs: Seq<XmlEvent>, st: RState) -> (Result<u64, ParsingError>, RState) {
    match tag_string_spec(evs, st) {
        (Err(e), s) => (Err(e), s),
        (Ok(t), s2) => match u64_of(t) {
            None => (Err(ParsingError::Int), s2),
            Some(n) => match close_spec(evs, s2) {
                (Err(e), s) => (Err(e), s),
                (Ok(_), s3) => (Ok(n), s3),
            },
        },
    }
}

/// After the `i`-th element of `cal_value_names` is opened with an opening
/// tag: its value, then the element closed. A count that does not read
/// fails with `Int`, a date that does not read (`UTC_DATETIME_FMT`) with
/// `Chrono`, before the element closes.
pub open spec fn cal_value_spec(evs: Seq<XmlEvent>, st: RState, i: int) -> (Result<PropertyView, ParsingError>, RState) {
    if i == 0 {
        match find_close_spec::<Href>(evs, st) {
            (Err(e), s) => (Err(e), s),
            (Ok(h), s) => (Ok(PropertyView::CalendarHomeSet(h)), s),
        }
    } else if i == 1 || i == 2 {
        match tag_string_spec(evs, st) {
            (Err(e), s) => (Err(e), s),
            (Ok(t), s2) => match close_spec(evs, s2) {
                (Err(e), s) => (Err(e), s),
                (Ok(_), s3) => (
                    Ok(
                        if i == 1 {
                            PropertyView::CalendarDescription { lang: prev_attr_spec(evs, st, "xml:lang"@), text: t }
                        } else {
                            PropertyView::CalendarTimezone(t)
                        },
                    ),
                    s3,
                ),
            },
        }
    } else if i == 3 {
        match collect_close_spec::<CompSupport>(evs, st) {
            (Err(e), s) => (Err(e), s),
            (Ok(v), s) => (Ok(PropertyView::SupportedCalendarComponentSet(v)), s),
        }
    } else if i == 4 {
        match collect_close_spec::<CalendarDataEmpty>(evs, st) {
            (Err(e), s) => (Err(e), s),
            (Ok(v), s) => (Ok(PropertyView::SupportedCalendarData(v)), s),
        }
    } else if i == 9 {
        match collect_close_spec::<SupportedCollation>(evs, st) {
            (Err(e), s) => (Err(e), s),
            (Ok(v), s) => (Ok(PropertyView::SupportedCollationSet(v)), s),
        }
    } else if i == 6 {
        match tag_string_spec(evs, st) {
            (Err(e), s) => (Err(e), s),
            (Ok(t), s2) => match naive_datetime_parse(t, UTC_DATETIME_FMT@) {
                None => (Err(ParsingError::Chrono), s2),
                Some(d) => match close_spec(evs, s2) {
                    (Err(e), s) => (Err(e), s),
                    (Ok(_), s3) => (Ok(PropertyView::MaxDateTime(d)), s3),
                },
            },
        }
    } else {
        match cal_count_spec(evs, st) {
            (Err(e), s) => (Err(e), s),
            (Ok(n), s) => (
                Ok(
                    if i == 5 {
                        PropertyView::MaxResourceSize(n)
                    } else if i == 7 {
                        PropertyView::MaxInstances(n)
                    } else {
                        PropertyView::MaxAttendeesPerInstance(n)
                    },
                ),
                s,
            ),
        }
    }
}

/// A CalDAV property value: the first element of `cal_value_names` that
/// is the current one with an opening tag, else calendar data; neither is
/// `Recoverable`.
pub open spec fn cal_property_spec(evs: Seq<XmlEvent>, st: RState) -> (Result<PropertyView, ParsingError>, RState) {
    match open_first_spec(evs, st, CAL_URN@, cal_value_names(), 0) {
        (Ok(i), s1) => cal_value_spec(evs, s1, i),
        (Err(ParsingError::Recoverable), _) => match maybe_read_spec::<CalendarDataPayload>(evs, st, None, false) {
            (Err(e), s, _, _) => (Err(e), s),
            (Ok(_), s, Some(a), _) => (Ok(PropertyView::CalendarData(a)), s),
            (Ok(_), s, None, _) => (Err(ParsingError::Recoverable), s),
        },
        (Err(e), s) => (Err(e), s),
    }
}

/// Reads a count and closes its element; see `cal_count_spec`.
fn read_cal_count(xml: &mut Reader) -> (r: Result<u64, ParsingError>)
    requires
        old(xml).wf(),
    ensures
        final(xml).wf(),
        final(xml).evs() == old(xml).evs(),
        r == cal_count_spec(old(xml).evs(), old(xml).st()).0,
        final(xml).st() == cal_count_spec(old(xml).evs(), old(xml).st()).1,
        final(xml).st().pos >= old(xml).st().pos,
{
    let text = xml.tag_string()?;
    let n = match parse_u64(text.as_str()) {
        None => return Err(ParsingError::Int),
        Some(n) => n,
    };
    xml.close()?;
    Ok(n)
}

/// Reads the value of the `i`-th CalDAV property; see `cal_value_spec`.
fn read_cal_value(xml: &mut Reader, i: usize) -> (r: Result<Property, ParsingError>)
    requires
        old(xml).wf(),
        i < 10,
    ensures
        final(xml).wf(),
        final(xml).evs() == old(xml).evs(),
        match r {
            Ok(v) => cal_value_spec(old(xml).evs(), old(xml).st(), i as int).0 == Ok::<PropertyView, ParsingError>(v@),
            Err(e) => cal_value_spec(old(xml).evs(), old(xml).st(), i as int).0 == Err::<PropertyView, ParsingError>(e),
        },
        final(xml).st() == cal_value_spec(old(xml).evs(), old(xml).st(), i as int).1,
        final(xml).st().pos >= old(xml).st().pos,
{
    if i == 0 {
        let href = find_close::<Href>(xml)?;
        Ok(Property::CalendarHomeSet(href))
    } else if i == 1 {
        let lang = xml.prev_attr("xml:lang");
        let text = xml.tag_string()?;
        xml.close()?;
        Ok(Property::CalendarDescription { lang, text })
    } else if i == 2 {
        let tz = xml.tag_string()?;
        xml.close()?;
        Ok(Property::CalendarTimezone(tz))
    } else if i == 3 {
        let comp = collect_close::<CompSupport>(xml)?;
        Ok(Property::SupportedCalendarComponentSet(comp))
    } else if i == 4 {
        let mime = collect_close::<CalendarDataEmpty>(xml)?;
        Ok(Property::SupportedCalendarData(mime))
    } else if i == 9 {
        let cols = collect_close::<SupportedCollation>(xml)?;
        Ok(Property::SupportedCollationSet(cols))
    } else if i == 6 {
        let text = xml.tag_string()?;
        let dt = match parse_naive_utc(text.as_str(), UTC_DATETIME_FMT) {
            None => return Err(ParsingError::Chrono),
            Some(d) => d,
        };
        xml.close()?;
        Ok(Property::MaxDateTime(dt))
    } else {
        let n = read_cal_count(xml)?;
        Ok(
            if i == 5 {
                Property::MaxResourceSize(n)
            } else if i == 7 {
                Property::MaxInstances(n)
            } else {
                Property::MaxAttendeesPerInstance(n)
            },
        )
    }
}

impl QRead for Property {
    open spec fn qread_spec(evs: Seq<XmlEvent>, st: RState) -> (Result<PropertyView, ParsingError>, RState) {
        cal_property_spec(evs, st)
    }

    fn qread(xml: &mut Reader) -> (r: Result<Self, ParsingError>) {
        let keys: Vec<&str> = vec![
            "calendar-home-set",
            "calendar-description",
            "calendar-timezone",
            "supported-calendar-component-set",
            "supported-calendar-data",
            "max-resource-size",
            "max-date-time",
            "max-instances",
            "max-attendees-per-instance",
            "supported-collation-set",
        ];
        assert(keys_view(keys@) =~= cal_value_names());
        match open_first(xml, CAL_URN, &keys) {
            Ok(i) => read_cal_value(xml, i),
            Err(ParsingError::Recoverable) => {
                let mut dirty = false;
                let mut caldata: Option<CalendarDataPayload> = None;
                xml.maybe_read(&mut caldata, &mut dirty)?;
                match caldata {
                    Some(c) => Ok(Property::CalendarData(c)),
                    None => Err(ParsingError::Recoverable),
                }
            },
            Err(e) => Err(e),
        }
    }
}

/// A date attribute of a time range: absent, a time, or a text that does
/// not read (`UTC_DATETIME_FMT`).
pub open spec fn date_attr(a: Option<Seq<char>>) -> Result<Option<UtcTime>, ParsingError> {
    match a {
        None => Ok(None),
        Some(t) => match naive_datetime_parse(t, UTC_DATETIME_FMT@) {
            None => Err(ParsingError::Chrono),
            Some(d) => Ok(Some(d)),
        },
    }
}

/// `<C:time-range start=".." end=".."/>`: a date that does not read fails
/// with `Chrono` before the element closes; then a range needs one end at
/// least (`MissingAttribute`), and a start not after its end
/// (`InvalidValue`).
pub open spec fn time_range_spec(evs: Seq<XmlEvent>, st: RState) -> (Result<TimeRange, ParsingError>, RState) {
    match open_spec(evs, st, CAL_URN@, "time-range"@) {
        (Err(e), s) => (Err(e), s),
        (Ok(_), s1) => match date_attr(prev_attr_spec(evs, s1, "start"@)) {
            Err(e) => (Err(e), s1),
            Ok(start) => match date_attr(prev_attr_spec(evs, s1, "end"@)) {
                Err(e) => (Err(e), s1),
                Ok(end) => match close_spec(evs, s1) {
                    (Err(e), s) => (Err(e), s),
                    (Ok(_), s2) => (
                        match (start, end) {
                            (Some(a), Some(b)) => if utc_lt(b, a) {
                                Err(ParsingError::InvalidValue)
                            } else {
                                Ok(TimeRange::FullRange(a, b))
                            },
                            (Some(a), None) => Ok(TimeRange::OnlyStart(a)),
                            (None, Some(b)) => Ok(TimeRange::OnlyEnd(b)),
                            (None, None) => Err(ParsingError::MissingAttribute),
                        },
                        s2,
                    ),
                },
            },
        },
    }
}

/// Reads a date attribute of the element just opened; see `date_attr`.
fn read_date_attr(xml: &Reader, key: &str) -> (r: Result<Option<UtcTime>, ParsingError>)
    requires
        xml.wf(),
    ensures
        r == date_attr(prev_attr_spec(xml.evs(), xml.st(), key@)),
{
    match xml.prev_attr(key) {
        None => Ok(None),
        Some(t) => match parse_naive_utc(t.as_str(), UTC_DATETIME_FMT) {
            None => Err(ParsingError::Chrono),
            Some(d) => Ok(Some(d)),
        },
    }
}

impl QRead for TimeRange {
    open spec fn qread_spec(evs: Seq<XmlEvent>, st: RState) -> (Result<TimeRange, ParsingError>, RState) {
        time_range_spec(evs, st)
    }

    fn qread(xml: &mut Reader) -> (r: Result<Self, ParsingError>) {
        xml.open(CAL_URN, "time-range")?;
        proof {
            reveal_strlit("start");
            reveal_strlit("end");
        }
        let start = read_date_attr(xml, "start")?;
        let end = read_date_attr(xml, "end")?;
        xml.close()?;
        match (start, end) {
            (Some(a), Some(b)) => if utc_less(&b, &a) {
                Err(ParsingError::InvalidValue)
            } else {
                Ok(TimeRange::FullRange(a, b))
            },
            (Some(a), None) => Ok(TimeRange::OnlyStart(a)),
            (None, Some(b)) => Ok(TimeRange::OnlyEnd(b)),
            (None, None) => Err(ParsingError::MissingAttribute),
        }
    }
}

// --- Filters ---

/// A collation attribute: the collation it names, if any.
pub open spec fn cal_collation_attr(a: Option<Seq<char>>) -> Option<CollationView> {
    match a {
        None => None,
        Some(t) => Some(collation_view_of(t)),
    }
}

/// A negate-condition attribute: whether it says `yes`, if it is there.
pub open spec fn cal_negate_attr(a: Option<Seq<char>>) -> Option<bool> {
    match a {
        None => None,
        Some(t) => Some(t == "yes"@),
    }
}

/// Reads the collation attribute of the element just opened; see
/// `cal_collation_attr`.
fn read_collation(xml: &Reader) -> (r: Option<Collation>)
    requires
        xml.wf(),
    ensures
        opt_view(r) == cal_collation_attr(prev_attr_spec(xml.evs(), xml.st(), "collation"@)),
{
    match xml.prev_attr("collation") {
        None => None,
        Some(t) => Some(Collation::new(t)),
    }
}

/// Reads the negate-condition attribute of the element just opened; see
/// `cal_negate_attr`.
fn read_negate(xml: &Reader) -> (r: Option<bool>)
    requires
        xml.wf(),
    ensures
        r == cal_negate_attr(prev_attr_spec(xml.evs(), xml.st(), "negate-condition"@)),
{
    match xml.prev_attr("negate-condition") {
        None => None,
        Some(t) => {
            proof {
                reveal_strlit("yes");
            }
            Some(str_eq(t.as_str(), "yes"))
        },
    }
}

/// `<C:text-match>`: its collation and negation attributes and the text to
/// match.
pub open spec fn cal_text_match_spec(evs: Seq<XmlEvent>, st: RState) -> (Result<TextMatchView, ParsingError>, RState) {
    match open_spec(evs, st, CAL_URN@, "text-match"@) {
        (Err(e), s) => (Err(e), s),
        (Ok(_), s1) => match tag_string_spec(evs, s1) {
            (Err(e), s) => (Err(e), s),
            (Ok(t), s2) => match close_spec(evs, s2) {
                (Err(e), s) => (Err(e), s),
                (Ok(_), s3) => (
                    Ok(
                        TextMatchView {
                            collation: cal_collation_attr(prev_attr_spec(evs, s1, "collation"@)),
                            negate_condition: cal_negate_attr(prev_attr_spec(evs, s1, "negate-condition"@)),
                            text: t,
                        },
                    ),
                    s3,
                ),
            },
        },
    }
}

/// Reads a text match; see `cal_text_match_spec`.
fn read_text_match(xml: &mut Reader) -> (r: Result<TextMatch, ParsingError>)
    requires
        old(xml).wf(),
    ensures
        final(xml).wf(),
        final(xml).evs() == old(xml).evs(),
        res_view(r) == cal_text_match_spec(old(xml).evs(), old(xml).st()).0,
        final(xml).st() == cal_text_match_spec(old(xml).evs(), old(xml).st()).1,
        final(xml).st().pos >= old(xml).st().pos,
        r is Ok ==> final(xml).st().pos > old(xml).st().pos,
{
    xml.open(CAL_URN, "text-match")?;
    let collation = read_collation(xml);
    let negate_condition = read_negate(xml);
    let text = xml.tag_string()?;
    xml.close()?;
    Ok(TextMatch { collation, negate_condition, text })
}

impl QRead for TextMatch {
    open spec fn qread_spec(evs: Seq<XmlEvent>, st: RState) -> (Result<TextMatchView, ParsingError>, RState) {
        cal_text_match_spec(evs, st)
    }

    fn qread(xml: &mut Reader) -> (r: Result<Self, ParsingError>) {
        assert(<TextMatch as QRead>::qread_spec(xml.evs(), xml.st()) == cal_text_match_spec(xml.evs(), xml.st()));
        read_text_match(xml)
    }
}

/// What a param-filter asks: `<C:is-not-defined/>`, else a text match.
pub open spec fn cal_param_filter_match_spec(evs: Seq<XmlEvent>, st: RState) -> (
    Result<ParamFilterMatchView, ParsingError>,
    RState,
) {
    match atoms_spec(evs, st, CAL_URN@, seq!["is-not-defined"@], 0) {
        (Ok(_), s) => (Ok(ParamFilterMatchView::IsNotDefined), s),
        (Err(ParsingError::Recoverable), s1) => match cal_text_match_spec(evs, s1) {
            (Ok(t), s) => (Ok(ParamFilterMatchView::Match(t)), s),
            (Err(e), s) => (Err(e), s),
        },
        (Err(e), s) => (Err(e), s),
    }
}

impl QRead for ParamFilterMatch {
    open spec fn qread_spec(evs: Seq<XmlEvent>, st: RState) -> (Result<ParamFilterMatchView, ParsingError>, RState) {
        cal_param_filter_match_spec(evs, st)
    }

    fn qread(xml: &mut Reader) -> (r: Result<Self, ParsingError>) {
        let keys: Vec<&str> = vec!["is-not-defined"];
        assert(keys_view(keys@) =~= seq!["is-not-defined"@]);
        match xml.read_atom(CAL_URN, &keys) {
            Ok(_) => return Ok(ParamFilterMatch::IsNotDefined),
            Err(ParsingError::Recoverable) => {},
            Err(e) => return Err(e),
        }
        match TextMatch::qread(xml) {
            Ok(t) => Ok(ParamFilterMatch::Match(t)),
            Err(e) => Err(e),
        }
    }
}

/// `<C:param-filter name="..">`: the parameter it names, required, and
/// what it asks of it, if anything.
pub open spec fn cal_param_filter_spec(evs: Seq<XmlEvent>, st: RState) -> (Result<ParamFilterView, ParsingError>, RState) {
    match open_spec(evs, st, CAL_URN@, "param-filter"@) {
        (Err(e), s) => (Err(e), s),
        (Ok(_), s1) => match prev_attr_spec(evs, s1, "name"@) {
            None => (Err(ParsingError::MissingAttribute), s1),
            Some(n) => match maybe_find_spec::<ParamFilterMatch>(evs, s1) {
                (Err(e), s) => (Err(e), s),
                (Ok(r), s2) => match close_spec(evs, s2) {
                    (Err(e), s) => (Err(e), s),
                    (Ok(_), s3) => (Ok(ParamFilterView { name: n, rules: r }), s3),
                },
            },
        },
    }
}

impl QRead for ParamFilter {
    open spec fn qread_spec(evs: Seq<XmlEvent>, st: RState) -> (Result<ParamFilterView, ParsingError>, RState) {
        cal_param_filter_spec(evs, st)
    }

    fn qread(xml: &mut Reader) -> (r: Result<Self, ParsingError>) {
        xml.open(CAL_URN, "param-filter")?;
        let name = match xml.prev_attr("name") {
            None => return Err(ParsingError::MissingAttribute),
            Some(n) => PropertyParameter(n),
        };
        let additional_rules = xml.maybe_find::<ParamFilterMatch>()?;
        xml.close()?;
        Ok(ParamFilter { name, additional_rules })
    }
}

/// A time range, else a text match.
pub open spec fn time_or_text_spec(evs: Seq<XmlEvent>, st: RState) -> (Result<TimeOrTextView, ParsingError>, RState) {
    match time_range_spec(evs, st) {
        (Ok(t), s) => (Ok(TimeOrTextView::Time(t)), s),
        (Err(ParsingError::Recoverable), s1) => match cal_text_match_spec(evs, s1) {
            (Ok(t), s) => (Ok(TimeOrTextView::Text(t)), s),
            (Err(e), s) => (Err(e), s),
        },
        (Err(e), s) => (Err(e), s),
    }
}

impl QRead for TimeOrText {
    open spec fn qread_spec(evs: Seq<XmlEvent>, st: RState) -> (Result<TimeOrTextView, ParsingError>, RState) {
        time_or_text_spec(evs, st)
    }

    fn qread(xml: &mut Reader) -> (r: Result<Self, ParsingError>) {
        match TimeRange::qread(xml) {
            Ok(t) => return Ok(TimeOrText::Time(t)),
            Err(ParsingError::Recoverable) => {},
            Err(e) => return Err(e),
        }
        match TextMatch::qread(xml) {
            Ok(t) => Ok(TimeOrText::Text(t)),
            Err(e) => Err(e),
        }
    }
}

/// The rules of a prop-filter from the current event on, after the value
/// test `tt` and the parameter filters `pf`: `<C:is-not-defined/>`
/// wherever it comes, else the last value test and the parameter filters
/// up to the closing tag, other nodes skipped; none at all is no rules.
pub open spec fn cal_prop_rules_loop(
    evs: Seq<XmlEvent>,
    st: RState,
    tt: Option<TimeOrTextView>,
    pf: Seq<ParamFilterView>,
) -> (Result<Option<PropFilterRulesView>, ParsingError>, RState)
    decreases evs.len() - st.pos,
{
    match open_spec(evs, st, CAL_URN@, "is-not-defined"@) {
        (Ok(_), s1) => match close_spec(evs, s1) {
            (Ok(_), s2) => (Ok(Some(PropFilterRulesView::IsNotDefined)), s2),
            (Err(e), s) => (Err(e), s),
        },
        (Err(ParsingError::Recoverable), _) => {
            let (r1, s1, tt1, d1) = maybe_read_spec::<TimeOrText>(evs, st, tt, false);
            if r1 is Err {
                (Err(r1->Err_0), s1)
            } else {
                let (r2, s2, pf1, d2) = maybe_push_spec::<ParamFilter>(evs, s1, pf, d1);
                if r2 is Err {
                    (Err(r2->Err_0), s2)
                } else if d2 {
                    if st.pos < s2.pos <= evs.len() {
                        cal_prop_rules_loop(evs, s2, tt1, pf1)
                    } else {
                        (Err(ParsingError::Eof), s2)
                    }
                } else if 0 <= s2.pos < evs.len() {
                    if evs[s2.pos] is End {
                        if tt1 is None && pf1.len() == 0 {
                            (Ok(None), s2)
                        } else {
                            (Ok(Some(PropFilterRulesView::Match { time_or_text: tt1, param_filter: pf1 })), s2)
                        }
                    } else {
                        match skip_spec(evs, s2) {
                            (Err(e), s3) => (Err(e), s3),
                            (Ok(_), s3) => if st.pos < s3.pos <= evs.len() {
                                cal_prop_rules_loop(evs, s3, tt1, pf1)
                            } else {
                                (Err(ParsingError::Eof), s3)
                            },
                        }
                    }
                } else {
                    (Err(ParsingError::Eof), s2)
                }
            }
        },
        (Err(e), s) => (Err(e), s),
    }
}

/// Reads the rules of a prop-filter from the current event on; see
/// `cal_prop_rules_loop`.
#[verifier::spinoff_prover]
#[verifier::rlimit(40)]
fn read_prop_rules(xml: &mut Reader) -> (r: Result<Option<PropFilterRules>, ParsingError>)
    requires
        old(xml).wf(),
    ensures
        final(xml).wf(),
        final(xml).evs() == old(xml).evs(),
        match r {
            Ok(v) => cal_prop_rules_loop(old(xml).evs(), old(xml).st(), None, Seq::empty()).0 == Ok::<
                Option<PropFilterRulesView>,
                ParsingError,
            >(opt_view(v)),
            Err(e) => cal_prop_rules_loop(old(xml).evs(), old(xml).st(), None, Seq::empty()).0 == Err::<
                Option<PropFilterRulesView>,
                ParsingError,
            >(e),
        },
        final(xml).st() == cal_prop_rules_loop(old(xml).evs(), old(xml).st(), None, Seq::empty()).1,
        final(xml).st().pos >= old(xml).st().pos,
{
    let ghost evs = xml.evs();
    let ghost st0 = xml.st();
    let mut time_or_text: Option<TimeOrText> = None;
    let mut param_filter: Vec<ParamFilter> = Vec::new();
    proof {
        assert(views(param_filter@) =~= Seq::<ParamFilterView>::empty());
    }
    loop
        invariant
            xml.wf(),
            xml.evs() == evs,
            evs == old(xml).evs(),
            st0 == old(xml).st(),
            xml.st().pos >= st0.pos,
            cal_prop_rules_loop(evs, xml.st(), opt_view(time_or_text), views(param_filter@)) == cal_prop_rules_loop(
                evs,
                st0,
                None,
                Seq::empty(),
            ),
        decreases evs.len() - xml.st().pos,
    {
        let ghost here = xml.st();
        if xml.maybe_open(CAL_URN, "is-not-defined")? {
            xml.close()?;
            return Ok(Some(PropFilterRules::IsNotDefined));
        }
        let mut dirty = false;
        xml.maybe_read(&mut time_or_text, &mut dirty)?;
        xml.maybe_push(&mut param_filter, &mut dirty)?;
        if !dirty {
            if let XmlEvent::End(_) = xml.peek() {
                if time_or_text.is_none() && param_filter.len() == 0 {
                    return Ok(None);
                }
                return Ok(Some(PropFilterRules::Match(PropFilterMatch { time_or_text, param_filter })));
            }
            proof {
                lemma_skip(evs, xml.st());
            }
            xml.skip()?;
        }
        assert(here.pos < xml.st().pos);
    }
}

/// `<C:prop-filter name="..">`: the property it names, required, and its
/// rules, if it has any.
pub open spec fn cal_prop_filter_spec(evs: Seq<XmlEvent>, st: RState) -> (Result<PropFilterView, ParsingError>, RState) {
    match open_spec(evs, st, CAL_URN@, "prop-filter"@) {
        (Err(e), s) => (Err(e), s),
        (Ok(_), s1) => match prev_attr_spec(evs, s1, "name"@) {
            None => (Err(ParsingError::MissingAttribute), s1),
            Some(n) => match (if parent_has_child_spec(evs, s1) {
                cal_prop_rules_loop(evs, s1, None, Seq::empty())
            } else {
                (Ok(None), s1)
            }) {
                (Err(e), s) => (Err(e), s),
                (Ok(r), s2) => match close_spec(evs, s2) {
                    (Err(e), s) => (Err(e), s),
                    (Ok(_), s3) => (Ok(PropFilterView { name: n, rules: r }), s3),
                },
            },
        },
    }
}

impl QRead for PropFilter {
    open spec fn qread_spec(evs: Seq<XmlEvent>, st: RState) -> (Result<PropFilterView, ParsingError>, RState) {
        cal_prop_filter_spec(evs, st)
    }

    fn qread(xml: &mut Reader) -> (r: Result<Self, ParsingError>) {
        xml.open(CAL_URN, "prop-filter")?;
        let name = match xml.prev_attr("name") {
            None => return Err(ParsingError::MissingAttribute),
            Some(n) => ComponentProperty(n),
        };
        let additional_rules = if xml.parent_has_child() {
            read_prop_rules(xml)?
        } else {
            None
        };
        xml.close()?;
        Ok(PropFilter { name, additional_rules })
    }
}

/// The rules of a comp-filter from the current event on, after the time
/// range `tr`, the property filters `pf` and the nested component filters
/// `cf`: `<C:is-not-defined/>` wherever it comes, else the last time range
/// and the filters up to the closing tag, other nodes skipped; none at all
/// is no rules.
pub open spec fn comp_rules_loop(
    evs: Seq<XmlEvent>,
    st: RState,
    tr: Option<TimeRange>,
    pf: Seq<PropFilterView>,
    cf: Seq<CompFilterView>,
) -> (Result<Option<CompFilterRulesView>, ParsingError>, RState)
    decreases evs.len() - st.pos, 1int,
{
    match open_spec(evs, st, CAL_URN@, "is-not-defined"@) {
        (Ok(_), s1) => match close_spec(evs, s1) {
            (Ok(_), s2) => (Ok(Some(CompFilterRulesView::IsNotDefined)), s2),
            (Err(e), s) => (Err(e), s),
        },
        (Err(ParsingError::Recoverable), _) => {
            let (r1, s1, tr1, d1) = maybe_read_spec::<TimeRange>(evs, st, tr, false);
            if r1 is Err {
                (Err(r1->Err_0), s1)
            } else {
                let (r2, s2, pf1, d2) = maybe_push_spec::<PropFilter>(evs, s1, pf, d1);
                if r2 is Err {
                    (Err(r2->Err_0), s2)
                } else if !(st.pos <= s2.pos <= evs.len()) {
                    (Err(ParsingError::Eof), s2)
                } else {
                    let (r3, s3, cf1, d3) = if !parent_has_child_spec(evs, s2) {
                        (Ok(()), s2, cf, d2)
                    } else {
                        match comp_filter_spec(evs, s2) {
                            (Ok(v), s) => (Ok(()), s, cf.push(v), true),
                            (Err(ParsingError::Recoverable), s) => (Ok(()), s, cf, d2),
                            (Err(e), s) => (Err(e), s, cf, d2),
                        }
                    };
                    if r3 is Err {
                        (Err(r3->Err_0), s3)
                    } else if d3 {
                        if st.pos < s3.pos <= evs.len() {
                            comp_rules_loop(evs, s3, tr1, pf1, cf1)
                        } else {
                            (Err(ParsingError::Eof), s3)
                        }
                    } else if 0 <= s3.pos < evs.len() {
                        if evs[s3.pos] is End {
                            if tr1 is None && pf1.len() == 0 && cf1.len() == 0 {
                                (Ok(None), s3)
                            } else {
                                (
                                    Ok(
                                        Some(
                                            CompFilterRulesView::Matches {
                                                time_range: tr1,
                                                prop_filter: pf1,
                                                comp_filter: cf1,
                                            },
                                        ),
                                    ),
                                    s3,
                                )
                            }
                        } else {
                            match skip_spec(evs, s3) {
                                (Err(e), s4) => (Err(e), s4),
                                (Ok(_), s4) => if st.pos < s4.pos <= evs.len() {
                                    comp_rules_loop(evs, s4, tr1, pf1, cf1)
                                } else {
                                    (Err(ParsingError::Eof), s4)
                                },
                            }
                        }
                    } else {
                        (Err(ParsingError::Eof), s3)
                    }
                }
            }
        },
        (Err(e), s) => (Err(e), s),
    }
}

/// `<C:comp-filter name="..">`: the component it names, required, and its
/// rules, if it has any.
pub open spec fn comp_filter_spec(evs: Seq<XmlEvent>, st: RState) -> (Result<CompFilterView, ParsingError>, RState)
    decreases evs.len() - st.pos, 0int,
{
    match open_spec(evs, st, CAL_URN@, "comp-filter"@) {
        (Err(e), s) => (Err(e), s),
        (Ok(_), s1) => match prev_attr_spec(evs, s1, "name"@) {
            None => (Err(ParsingError::MissingAttribute), s1),
            Some(n) => match (if parent_has_child_spec(evs, s1) && st.pos < s1.pos <= evs.len() {
                comp_rules_loop(evs, s1, None, Seq::empty(), Seq::empty())
            } else {
                (Ok(None), s1)
            }) {
                (Err(e), s) => (Err(e), s),
                (Ok(r), s2) => match close_spec(evs, s2) {
                    (Err(e), s) => (Err(e), s),
                    (Ok(_), s3) => (Ok(CompFilterView { name: component_view_of(n), rules: r }), s3),
                },
            },
        },
    }
}

/// Reads the rules of a comp-filter from the current event on; see
/// `comp_rules_loop`.
#[verifier::spinoff_prover]
#[verifier::rlimit(60)]
fn read_comp_rules(xml: &mut Reader) -> (r: Result<Option<CompFilterRules>, ParsingError>)
    requires
        old(xml).wf(),
    ensures
        final(xml).wf(),
        final(xml).evs() == old(xml).evs(),
        ({
            let sp = comp_rules_loop(old(xml).evs(), old(xml).st(), None, Seq::empty(), Seq::empty());
            &&& match r {
                Ok(v) => sp.0 == Ok::<Option<CompFilterRulesView>, ParsingError>(comp_rules_view(v)),
                Err(e) => sp.0 == Err::<Option<CompFilterRulesView>, ParsingError>(e),
            }
            &&& final(xml).st() == sp.1
        }),
        final(xml).st().pos >= old(xml).st().pos,
    decreases old(xml).evs().len() - old(xml).st().pos, 1int,
{
    let ghost evs = xml.evs();
    let ghost st0 = xml.st();
    let mut time_range: Option<TimeRange> = None;
    let mut prop_filter: Vec<PropFilter> = Vec::new();
    let mut comp_filter: Vec<CompFilter> = Vec::new();
    proof {
        assert(views(prop_filter@) =~= Seq::<PropFilterView>::empty());
        assert(comp_filters_view(comp_filter@) =~= Seq::<CompFilterView>::empty());
    }
    loop
        invariant
            xml.wf(),
            xml.evs() == evs,
            evs == old(xml).evs(),
            st0 == old(xml).st(),
            xml.st().pos >= st0.pos,
            comp_rules_loop(evs, xml.st(), opt_view(time_range), views(prop_filter@), comp_filters_view(comp_filter@))
                == comp_rules_loop(evs, st0, None, Seq::empty(), Seq::empty()),
        decreases evs.len() - xml.st().pos,
    {
        let ghost here = xml.st();
        if xml.maybe_open(CAL_URN, "is-not-defined")? {
            xml.close()?;
            return Ok(Some(CompFilterRules::IsNotDefined));
        }
        let mut dirty = false;
        xml.maybe_read(&mut time_range, &mut dirty)?;
        xml.maybe_push(&mut prop_filter, &mut dirty)?;
        if xml.parent_has_child() {
            let ghost before = comp_filter@;
            match read_comp_filter(xml) {
                Ok(c) => {
                    comp_filter.push(c);
                    proof {
                        assert(comp_filter@.drop_last() =~= before);
                    }
                    dirty = true;
                },
                Err(ParsingError::Recoverable) => {},
                Err(e) => return Err(e),
            }
        }
        if !dirty {
            if let XmlEvent::End(_) = xml.peek() {
                if time_range.is_none() && prop_filter.len() == 0 && comp_filter.len() == 0 {
                    return Ok(None);
                }
                return Ok(Some(CompFilterRules::Matches(CompFilterMatch { time_range, prop_filter, comp_filter })));
            }
            proof {
                lemma_skip(evs, xml.st());
            }
            xml.skip()?;
        }
        assert(here.pos < xml.st().pos);
    }
}

/// Reads a comp-filter; see `comp_filter_spec`.
#[verifier::spinoff_prover]
#[verifier::rlimit(60)]
fn read_comp_filter(xml: &mut Reader) -> (r: Result<CompFilter, ParsingError>)
    requires
        old(xml).wf(),
    ensures
        final(xml).wf(),
        final(xml).evs() == old(xml).evs(),
        match r {
            Ok(v) => comp_filter_spec(old(xml).evs(), old(xml).st()).0 == Ok::<CompFilterView, ParsingError>(v@),
            Err(e) => comp_filter_spec(old(xml).evs(), old(xml).st()).0 == Err::<CompFilterView, ParsingError>(e),
        },
        final(xml).st() == comp_filter_spec(old(xml).evs(), old(xml).st()).1,
        final(xml).st().pos >= old(xml).st().pos,
        r is Ok ==> final(xml).st().pos > old(xml).st().pos,
    decreases old(xml).evs().len() - old(xml).st().pos, 0int,
{
    let ghost st0 = xml.st();
    xml.open(CAL_URN, "comp-filter")?;
    let name = match xml.prev_attr("name") {
        None => return Err(ParsingError::MissingAttribute),
        Some(n) => Component::new(n),
    };
    let additional_rules = if xml.parent_has_child() {
        assert(st0.pos < xml.st().pos);
        read_comp_rules(xml)?
    } else {
        None
    };
    xml.close()?;
    Ok(CompFilter { name, additional_rules })
}

impl QRead for CompFilter {
    open spec fn qread_spec(evs: Seq<XmlEvent>, st: RState) -> (Result<CompFilterView, ParsingError>, RState) {
        comp_filter_spec(evs, st)
    }

    fn qread(xml: &mut Reader) -> (r: Result<Self, ParsingError>) {
        read_comp_filter(xml)
    }
}

/// The children of `<C:supported-filter>` from the current event on,
/// after the filters `c`, `p` and `q`: the component, property and
/// parameter filters up to the closing tag, each kind in document order,
/// other nodes skipped.
pub open spec fn supported_filter_loop(
    evs: Seq<XmlEvent>,
    st: RState,
    c: Seq<CompFilterView>,
    p: Seq<PropFilterView>,
    q: Seq<ParamFilterView>,
) -> (Result<(Seq<CompFilterView>, Seq<PropFilterView>, Seq<ParamFilterView>), ParsingError>, RState)
    decreases evs.len() - st.pos,
{
    let (r1, s1, c1, d1) = maybe_push_spec::<CompFilter>(evs, st, c, false);
    if r1 is Err {
        (Err(r1->Err_0), s1)
    } else {
        let (r2, s2, p1, d2) = maybe_push_spec::<PropFilter>(evs, s1, p, d1);
        if r2 is Err {
            (Err(r2->Err_0), s2)
        } else {
            let (r3, s3, q1, d3) = maybe_push_spec::<ParamFilter>(evs, s2, q, d2);
            if r3 is Err {
                (Err(r3->Err_0), s3)
            } else if d3 {
                if st.pos < s3.pos <= evs.len() {
                    supported_filter_loop(evs, s3, c1, p1, q1)
                } else {
                    (Err(ParsingError::Eof), s3)
                }
            } else if 0 <= s3.pos < evs.len() {
                if evs[s3.pos] is End {
                    (Ok((c1, p1, q1)), s3)
                } else {
                    match skip_spec(evs, s3) {
                        (Err(e), s4) => (Err(e), s4),
                        (Ok(_), s4) => if st.pos < s4.pos <= evs.len() {
                            supported_filter_loop(evs, s4, c1, p1, q1)
                        } else {
                            (Err(ParsingError::Eof), s4)
                        },
                    }
                }
            } else {
                (Err(ParsingError::Eof), s3)
            }
        }
    }
}

/// Reads the children of `<C:supported-filter>`; see
/// `supported_filter_loop`.
#[verifier::spinoff_prover]
#[verifier::rlimit(40)]
fn read_supported_filter(xml: &mut Reader) -> (r: Result<(Vec<CompFilter>, Vec<PropFilter>, Vec<ParamFilter>), ParsingError>)
    requires
        old(xml).wf(),
    ensures
        final(xml).wf(),
        final(xml).evs() == old(xml).evs(),
        ({
            let sp = supported_filter_loop(old(xml).evs(), old(xml).st(), Seq::empty(), Seq::empty(), Seq::empty());
            &&& match r {
                Ok((c, p, q)) => sp.0 == Ok::<(Seq<CompFilterView>, Seq<PropFilterView>, Seq<ParamFilterView>), ParsingError>(
                    (views(c@), views(p@), views(q@)),
                ),
                Err(e) => sp.0 == Err::<(Seq<CompFilterView>, Seq<PropFilterView>, Seq<ParamFilterView>), ParsingError>(e),
            }
            &&& final(xml).st() == sp.1
        }),
        final(xml).st().pos >= old(xml).st().pos,
{
    let ghost evs = xml.evs();
    let ghost st0 = xml.st();
    let mut comp: Vec<CompFilter> = Vec::new();
    let mut prop: Vec<PropFilter> = Vec::new();
    let mut param: Vec<ParamFilter> = Vec::new();
    proof {
        assert(views(comp@) =~= Seq::<CompFilterView>::empty());
        assert(views(prop@) =~= Seq::<PropFilterView>::empty());
        assert(views(param@) =~= Seq::<ParamFilterView>::empty());
    }
    loop
        invariant
            xml.wf(),
            xml.evs() == evs,
            evs == old(xml).evs(),
            st0 == old(xml).st(),
            xml.st().pos >= st0.pos,
            supported_filter_loop(evs, xml.st(), views(comp@), views(prop@), views(param@)) == supported_filter_loop(
                evs,
                st0,
                Seq::empty(),
                Seq::empty(),
                Seq::empty(),
            ),
        decreases evs.len() - xml.st().pos,
    {
        let ghost here = xml.st();
        let mut dirty = false;
        xml.maybe_push(&mut comp, &mut dirty)?;
        xml.maybe_push(&mut prop, &mut dirty)?;
        xml.maybe_push(&mut param, &mut dirty)?;
        if !dirty {
            if let XmlEvent::End(_) = xml.peek() {
                return Ok((comp, prop, param));
            }
            proof {
                lemma_skip(evs, xml.st());
            }
            xml.skip()?;
        }
        assert(here.pos < xml.st().pos);
    }
}

// --- The component selection of calendar-data ---

/// `<C:prop name=".." novalue=".."/>`: a property to return. The name is
/// required; `novalue` says whether it is `yes`.
pub open spec fn cal_prop_spec(evs: Seq<XmlEvent>, st: RState) -> (Result<CalPropView, ParsingError>, RState) {
    match open_spec(evs, st, CAL_URN@, "prop"@) {
        (Err(e), s) => (Err(e), s),
        (Ok(_), s1) => match prev_attr_spec(evs, s1, "name"@) {
            None => (Err(ParsingError::MissingAttribute), s1),
            Some(n) => match close_spec(evs, s1) {
                (Err(e), s) => (Err(e), s),
                (Ok(_), s2) => (
                    Ok(CalPropView { name: n, novalue: cal_negate_attr(prev_attr_spec(evs, s1, "novalue"@)) }),
                    s2,
                ),
            },
        },
    }
}

/// Reads a yes/no attribute of the element just opened: whether it says
/// `yes`, if it is there.
fn read_yes(xml: &Reader, key: &str) -> (r: Option<bool>)
    requires
        xml.wf(),
    ensures
        r == cal_negate_attr(prev_attr_spec(xml.evs(), xml.st(), key@)),
{
    match xml.prev_attr(key) {
        None => None,
        Some(t) => {
            proof {
                reveal_strlit("yes");
            }
            Some(str_eq(t.as_str(), "yes"))
        },
    }
}

impl QRead for CalProp {
    open spec fn qread_spec(evs: Seq<XmlEvent>, st: RState) -> (Result<CalPropView, ParsingError>, RState) {
        cal_prop_spec(evs, st)
    }

    fn qread(xml: &mut Reader) -> (r: Result<Self, ParsingError>) {
        xml.open(CAL_URN, "prop")?;
        let name = match xml.prev_attr("name") {
            None => return Err(ParsingError::MissingAttribute),
            Some(n) => ComponentProperty(n),
        };
        let novalue = read_yes(xml, "novalue");
        xml.close()?;
        Ok(CalProp { name, novalue })
    }
}

/// The properties to return, from the current event on, after `acc`:
/// `<C:allprop/>`, else the `<C:prop>` elements that follow one another;
/// none at all is `Recoverable`.
pub open spec fn cal_prop_kind_loop(evs: Seq<XmlEvent>, st: RState, acc: Seq<CalPropView>) -> (
    Result<PropKindView, ParsingError>,
    RState,
)
    decreases evs.len() - st.pos,
{
    match open_spec(evs, st, CAL_URN@, "allprop"@) {
        (Ok(_), s1) => match close_spec(evs, s1) {
            (Ok(_), s2) => (Ok(PropKindView::AllProp), s2),
            (Err(e), s) => (Err(e), s),
        },
        (Err(ParsingError::Recoverable), _) => match maybe_push_spec::<CalProp>(evs, st, acc, false) {
            (Err(e), s, _, _) => (Err(e), s),
            (Ok(_), s1, acc1, dirty) => if dirty {
                if st.pos < s1.pos <= evs.len() {
                    cal_prop_kind_loop(evs, s1, acc1)
                } else {
                    (Err(ParsingError::Eof), s1)
                }
            } else if acc1.len() == 0 {
                (Err(ParsingError::Recoverable), s1)
            } else {
                (Ok(PropKindView::Prop(acc1)), s1)
            },
        },
        (Err(e), s) => (Err(e), s),
    }
}

impl QRead for PropKind {
    open spec fn qread_spec(evs: Seq<XmlEvent>, st: RState) -> (Result<PropKindView, ParsingError>, RState) {
        cal_prop_kind_loop(evs, st, Seq::empty())
    }

    #[verifier::spinoff_prover]
    #[verifier::rlimit(40)]
    fn qread(xml: &mut Reader) -> (r: Result<Self, ParsingError>) {
        let ghost evs = xml.evs();
        let ghost st0 = xml.st();
        let mut prop: Vec<CalProp> = Vec::new();
        proof {
            assert(views(prop@) =~= Seq::<CalPropView>::empty());
        }
        loop
            invariant
                xml.wf(),
                xml.evs() == evs,
                evs == old(xml).evs(),
                st0 == old(xml).st(),
                xml.st().pos >= st0.pos,
                prop@.len() > 0 ==> xml.st().pos > st0.pos,
                cal_prop_kind_loop(evs, xml.st(), views(prop@)) == cal_prop_kind_loop(evs, st0, Seq::empty()),
            decreases evs.len() - xml.st().pos,
        {
            if xml.maybe_open(CAL_URN, "allprop")? {
                xml.close()?;
                return Ok(PropKind::AllProp);
            }
            let mut dirty = false;
            xml.maybe_push(&mut prop, &mut dirty)?;
            if !dirty {
                if prop.len() == 0 {
                    return Err(ParsingError::Recoverable);
                }
                return Ok(PropKind::Prop(prop));
            }
        }
    }
}

/// A newly read property selection merged into the current one: property
/// lists are joined, anything else replaces what was there.
pub open spec fn merge_prop_kind(new: Option<PropKindView>, cur: Option<PropKindView>) -> Option<PropKindView> {
    match (new, cur) {
        (Some(PropKindView::Prop(a)), Some(PropKindView::Prop(b))) => Some(PropKindView::Prop(b + a)),
        (Some(x), _) => Some(x),
        (None, c) => c,
    }
}

/// A newly read sub-component selection merged into the current one:
/// component lists are joined, anything else replaces what was there.
pub open spec fn merge_comp_kind(new: Option<CompKindView>, cur: Option<CompKindView>) -> Option<CompKindView> {
    match (new, cur) {
        (Some(CompKindView::Comp(a)), Some(CompKindView::Comp(b))) => Some(CompKindView::Comp(b + a)),
        (Some(x), _) => Some(x),
        (None, c) => c,
    }
}

/// The sub-components to return, from the current event on, after `acc`:
/// `<C:allcomp/>`, else the `<C:comp>` elements that follow one another;
/// none at all is `Recoverable`.
pub open spec fn comp_kind_loop(evs: Seq<XmlEvent>, st: RState, acc: Seq<CompView>) -> (
    Result<CompKindView, ParsingError>,
    RState,
)
    decreases evs.len() - st.pos, 1int,
{
    match open_spec(evs, st, CAL_URN@, "allcomp"@) {
        (Ok(_), s1) => match close_spec(evs, s1) {
            (Ok(_), s2) => (Ok(CompKindView::AllComp), s2),
            (Err(e), s) => (Err(e), s),
        },
        (Err(ParsingError::Recoverable), _) => {
            let (r, s1, acc1, d) = if !parent_has_child_spec(evs, st) || !(st.pos <= evs.len()) {
                (Ok(()), st, acc, false)
            } else {
                match comp_spec(evs, st) {
                    (Ok(v), s) => (Ok(()), s, acc.push(v), true),
                    (Err(ParsingError::Recoverable), s) => (Ok(()), s, acc, false),
                    (Err(e), s) => (Err(e), s, acc, false),
                }
            };
            if r is Err {
                (Err(r->Err_0), s1)
            } else if d {
                if st.pos < s1.pos <= evs.len() {
                    comp_kind_loop(evs, s1, acc1)
                } else {
                    (Err(ParsingError::Eof), s1)
                }
            } else if acc1.len() == 0 {
                (Err(ParsingError::Recoverable), s1)
            } else {
                (Ok(CompKindView::Comp(acc1)), s1)
            }
        },
        (Err(e), s) => (Err(e), s),
    }
}

/// The children of a `<C:comp>` from the current event on, after the
/// selections `pk` and `ck`: property and sub-component selections, each
/// merged into what came before, up to the closing tag, other nodes
/// skipped.
pub open spec fn comp_loop(
    evs: Seq<XmlEvent>,
    st: RState,
    pk: Option<PropKindView>,
    ck: Option<CompKindView>,
) -> (Result<(Option<PropKindView>, Option<CompKindView>), ParsingError>, RState)
    decreases evs.len() - st.pos, 2int,
{
    let (r1, s1, tp, d1) = maybe_read_spec::<PropKind>(evs, st, None, false);
    if r1 is Err {
        (Err(r1->Err_0), s1)
    } else if !(st.pos <= s1.pos <= evs.len()) {
        (Err(ParsingError::Eof), s1)
    } else {
        let (r2, s2, tc, d2) = if !parent_has_child_spec(evs, s1) {
            (Ok(()), s1, None, d1)
        } else {
            match comp_kind_loop(evs, s1, Seq::empty()) {
                (Ok(v), s) => (Ok(()), s, Some(v), true),
                (Err(ParsingError::Recoverable), s) => (Ok(()), s, None, d1),
                (Err(e), s) => (Err(e), s, None, d1),
            }
        };
        let pk1 = merge_prop_kind(tp, pk);
        let ck1 = merge_comp_kind(tc, ck);
        if r2 is Err {
            (Err(r2->Err_0), s2)
        } else if d2 {
            if st.pos < s2.pos <= evs.len() {
                comp_loop(evs, s2, pk1, ck1)
            } else {
                (Err(ParsingError::Eof), s2)
            }
        } else if 0 <= s2.pos < evs.len() {
            if evs[s2.pos] is End {
                (Ok((pk1, ck1)), s2)
            } else {
                match skip_spec(evs, s2) {
                    (Err(e), s3) => (Err(e), s3),
                    (Ok(_), s3) => if st.pos < s3.pos <= evs.len() {
                        comp_loop(evs, s3, pk1, ck1)
                    } else {
                        (Err(ParsingError::Eof), s3)
                    },
                }
            }
        } else {
            (Err(ParsingError::Eof), s2)
        }
    }
}

/// `<C:comp name="..">`: the component it names, required, and, unless it
/// is self-closing, the selections among its children.
pub open spec fn comp_spec(evs: Seq<XmlEvent>, st: RState) -> (Result<CompView, ParsingError>, RState)
    decreases evs.len() - st.pos, 0int,
{
    match open_spec(evs, st, CAL_URN@, "comp"@) {
        (Err(e), s) => (Err(e), s),
        (Ok(_), s1) => match prev_attr_spec(evs, s1, "name"@) {
            None => (Err(ParsingError::MissingAttribute), s1),
            Some(n) => if evs[st.pos] is Empty {
                match close_spec(evs, s1) {
                    (Err(e), s) => (Err(e), s),
                    (Ok(_), s2) => (Ok(CompView { name: component_view_of(n), prop_kind: None, comp_kind: None }), s2),
                }
            } else if st.pos < s1.pos <= evs.len() {
                match comp_loop(evs, s1, None, None) {
                    (Err(e), s) => (Err(e), s),
                    (Ok((pk, ck)), s2) => match close_spec(evs, s2) {
                        (Err(e), s) => (Err(e), s),
                        (Ok(_), s3) => (Ok(CompView { name: component_view_of(n), prop_kind: pk, comp_kind: ck }), s3),
                    },
                }
            } else {
                (Err(ParsingError::Eof), s1)
            },
        },
    }
}

/// Joins two property selections; see `merge_prop_kind`.
fn merge_prop_kind_exec(new: Option<PropKind>, cur: Option<PropKind>) -> (r: Option<PropKind>)
    ensures
        opt_view(r) == merge_prop_kind(opt_view(new), opt_view(cur)),
{
    match (new, cur) {
        (Some(PropKind::Prop(a)), Some(PropKind::Prop(b))) => {
            let mut b = b;
            let mut a = a;
            let ghost b0 = b@;
            let ghost a0 = a@;
            b.append(&mut a);
            proof {
                assert(views(b@) =~= views(b0) + views(a0));
            }
            Some(PropKind::Prop(b))
        },
        (Some(x), _) => Some(x),
        (None, c) => c,
    }
}

/// Joins two sub-component selections; see `merge_comp_kind`.
fn merge_comp_kind_exec(new: Option<CompKind>, cur: Option<CompKind>) -> (r: Option<CompKind>)
    ensures
        comp_kind_view(r) == merge_comp_kind(comp_kind_view(new), comp_kind_view(cur)),
{
    match (new, cur) {
        (Some(CompKind::Comp(a)), Some(CompKind::Comp(b))) => {
            let mut b = b;
            let mut a = a;
            let ghost b0 = b@;
            let ghost a0 = a@;
            b.append(&mut a);
            proof {
                lemma_comps_view(b@);
                lemma_comps_view(b0);
                lemma_comps_view(a0);
                assert(b@ =~= b0 + a0);
                assert(comps_view(b@) =~= comps_view(b0) + comps_view(a0));
            }
            Some(CompKind::Comp(b))
        },
        (Some(x), _) => Some(x),
        (None, c) => c,
    }
}

/// Reads the sub-components to return; see `comp_kind_loop`.
#[verifier::spinoff_prover]
#[verifier::rlimit(60)]
fn read_comp_kind(xml: &mut Reader) -> (r: Result<CompKind, ParsingError>)
    requires
        old(xml).wf(),
    ensures
        final(xml).wf(),
        final(xml).evs() == old(xml).evs(),
        match r {
            Ok(v) => comp_kind_loop(old(xml).evs(), old(xml).st(), Seq::empty()).0 == Ok::<CompKindView, ParsingError>(
                comp_kind_view(Some(v))->0,
            ),
            Err(e) => comp_kind_loop(old(xml).evs(), old(xml).st(), Seq::empty()).0 == Err::<CompKindView, ParsingError>(e),
        },
        final(xml).st() == comp_kind_loop(old(xml).evs(), old(xml).st(), Seq::empty()).1,
        final(xml).st().pos >= old(xml).st().pos,
        r is Ok ==> final(xml).st().pos > old(xml).st().pos,
    decreases old(xml).evs().len() - old(xml).st().pos, 1int,
{
    let ghost evs = xml.evs();
    let ghost st0 = xml.st();
    let mut comp: Vec<Comp> = Vec::new();
    proof {
        assert(comps_view(comp@) =~= Seq::<CompView>::empty());
    }
    loop
        invariant
            xml.wf(),
            xml.evs() == evs,
            evs == old(xml).evs(),
            st0 == old(xml).st(),
            xml.st().pos >= st0.pos,
            comp@.len() > 0 ==> xml.st().pos > st0.pos,
            comp_kind_loop(evs, xml.st(), comps_view(comp@)) == comp_kind_loop(evs, st0, Seq::empty()),
        decreases evs.len() - xml.st().pos,
    {
        if xml.maybe_open(CAL_URN, "allcomp")? {
            xml.close()?;
            return Ok(CompKind::AllComp);
        }
        let mut dirty = false;
        if xml.parent_has_child() {
            let ghost before = comp@;
            match read_comp(xml) {
                Ok(c) => {
                    comp.push(c);
                    proof {
                        assert(comp@.drop_last() =~= before);
                    }
                    dirty = true;
                },
                Err(ParsingError::Recoverable) => {},
                Err(e) => return Err(e),
            }
        }
        if !dirty {
            if comp.len() == 0 {
                return Err(ParsingError::Recoverable);
            }
            return Ok(CompKind::Comp(comp));
        }
    }
}

/// Reads a component selection; see `comp_spec`.
#[verifier::spinoff_prover]
#[verifier::rlimit(80)]
fn read_comp(xml: &mut Reader) -> (r: Result<Comp, ParsingError>)
    requires
        old(xml).wf(),
    ensures
        final(xml).wf(),
        final(xml).evs() == old(xml).evs(),
        match r {
            Ok(v) => comp_spec(old(xml).evs(), old(xml).st()).0 == Ok::<CompView, ParsingError>(v@),
            Err(e) => comp_spec(old(xml).evs(), old(xml).st()).0 == Err::<CompView, ParsingError>(e),
        },
        final(xml).st() == comp_spec(old(xml).evs(), old(xml).st()).1,
        final(xml).st().pos >= old(xml).st().pos,
        r is Ok ==> final(xml).st().pos > old(xml).st().pos,
    decreases old(xml).evs().len() - old(xml).st().pos, 0int,
{
    let ghost evs = xml.evs();
    let ghost st0 = xml.st();
    let is_empty = match xml.peek() {
        XmlEvent::Empty(_) => true,
        _ => false,
    };
    xml.open(CAL_URN, "comp")?;
    let name = match xml.prev_attr("name") {
        None => return Err(ParsingError::MissingAttribute),
        Some(n) => Component::new(n),
    };
    if is_empty {
        xml.close()?;
        return Ok(Comp { name, prop_kind: None, comp_kind: None });
    }
    assert(st0.pos < xml.st().pos);
    let (prop_kind, comp_kind) = read_comp_body(xml)?;
    xml.close()?;
    Ok(Comp { name, prop_kind, comp_kind })
}

/// Reads the children of a `<C:comp>`; see `comp_loop`.
#[verifier::spinoff_prover]
#[verifier::rlimit(80)]
fn read_comp_body(xml: &mut Reader) -> (r: Result<(Option<PropKind>, Option<CompKind>), ParsingError>)
    requires
        old(xml).wf(),
    ensures
        final(xml).wf(),
        final(xml).evs() == old(xml).evs(),
        match r {
            Ok((p, c)) => comp_loop(old(xml).evs(), old(xml).st(), None, None).0 == Ok::<
                (Option<PropKindView>, Option<CompKindView>),
                ParsingError,
            >((opt_view(p), comp_kind_view(c))),
            Err(e) => comp_loop(old(xml).evs(), old(xml).st(), None, None).0 == Err::<
                (Option<PropKindView>, Option<CompKindView>),
                ParsingError,
            >(e),
        },
        final(xml).st() == comp_loop(old(xml).evs(), old(xml).st(), None, None).1,
        final(xml).st().pos >= old(xml).st().pos,
    decreases old(xml).evs().len() - old(xml).st().pos, 2int,
{
    let ghost evs = xml.evs();
    let ghost st0 = xml.st();
    let mut prop_kind: Option<PropKind> = None;
    let mut comp_kind: Option<CompKind> = None;
    loop
        invariant
            xml.wf(),
            xml.evs() == evs,
            evs == old(xml).evs(),
            st0 == old(xml).st(),
            xml.st().pos >= st0.pos,
            comp_loop(evs, xml.st(), opt_view(prop_kind), comp_kind_view(comp_kind)) == comp_loop(evs, st0, None, None),
        decreases evs.len() - xml.st().pos,
    {
        let ghost here = xml.st();
        let mut dirty = false;
        let mut tp: Option<PropKind> = None;
        xml.maybe_read(&mut tp, &mut dirty)?;
        let mut tc: Option<CompKind> = None;
        if xml.parent_has_child() {
            match read_comp_kind(xml) {
                Ok(v) => {
                    tc = Some(v);
                    dirty = true;
                },
                Err(ParsingError::Recoverable) => {},
                Err(e) => return Err(e),
            }
        }
        prop_kind = merge_prop_kind_exec(tp, prop_kind);
        comp_kind = merge_comp_kind_exec(tc, comp_kind);
        if !dirty {
            if let XmlEvent::End(_) = xml.peek() {
                return Ok((prop_kind, comp_kind));
            }
            proof {
                lemma_skip(evs, xml.st());
            }
            xml.skip()?;
        }
        assert(here.pos < xml.st().pos);
    }
}

impl QRead for Comp {
    open spec fn qread_spec(evs: Seq<XmlEvent>, st: RState) -> (Result<CompView, ParsingError>, RState) {
        comp_spec(evs, st)
    }

    fn qread(xml: &mut Reader) -> (r: Result<Self, ParsingError>) {
        assert(<Comp as QRead>::qread_spec(xml.evs(), xml.st()) == comp_spec(xml.evs(), xml.st()));
        read_comp(xml)
    }
}

// --- The calendar-data request ---

/// `<C:name start=".." end=".."/>`: a time span. Both ends are required
/// (`MissingAttribute`), must read (`Chrono`) and must not be reversed
/// (`InvalidValue`), all before the element closes.
pub open spec fn span_spec(evs: Seq<XmlEvent>, st: RState, name: Seq<char>) -> (
    Result<(UtcTime, UtcTime), ParsingError>,
    RState,
) {
    match open_spec(evs, st, CAL_URN@, name) {
        (Err(e), s) => (Err(e), s),
        (Ok(_), s1) => match (prev_attr_spec(evs, s1, "start"@), prev_attr_spec(evs, s1, "end"@)) {
            (Some(a), Some(b)) => match (
                naive_datetime_parse(a, UTC_DATETIME_FMT@),
                naive_datetime_parse(b, UTC_DATETIME_FMT@),
            ) {
                (None, _) => (Err(ParsingError::Chrono), s1),
                (Some(_), None) => (Err(ParsingError::Chrono), s1),
                (Some(x), Some(y)) => if utc_lt(y, x) {
                    (Err(ParsingError::InvalidValue), s1)
                } else {
                    match close_spec(evs, s1) {
                        (Err(e), s) => (Err(e), s),
                        (Ok(_), s2) => (Ok((x, y)), s2),
                    }
                },
            },
            _ => (Err(ParsingError::MissingAttribute), s1),
        },
    }
}

/// Reads a time span; see `span_spec`.
fn read_span(xml: &mut Reader, name: &str) -> (r: Result<(UtcTime, UtcTime), ParsingError>)
    requires
        old(xml).wf(),
    ensures
        final(xml).wf(),
        final(xml).evs() == old(xml).evs(),
        r == span_spec(old(xml).evs(), old(xml).st(), name@).0,
        final(xml).st() == span_spec(old(xml).evs(), old(xml).st(), name@).1,
        final(xml).st().pos >= old(xml).st().pos,
        r is Ok ==> final(xml).st().pos > old(xml).st().pos,
{
    xml.open(CAL_URN, name)?;
    proof {
        reveal_strlit("start");
        reveal_strlit("end");
    }
    let (rstart, rend) = match (xml.prev_attr("start"), xml.prev_attr("end")) {
        (Some(a), Some(b)) => (a, b),
        _ => return Err(ParsingError::MissingAttribute),
    };
    let start = match parse_naive_utc(rstart.as_str(), UTC_DATETIME_FMT) {
        None => return Err(ParsingError::Chrono),
        Some(t) => t,
    };
    let end = match parse_naive_utc(rend.as_str(), UTC_DATETIME_FMT) {
        None => return Err(ParsingError::Chrono),
        Some(t) => t,
    };
    if utc_less(&end, &start) {
        return Err(ParsingError::InvalidValue);
    }
    xml.close()?;
    Ok((start, end))
}

impl QRead for Expand {
    open spec fn qread_spec(evs: Seq<XmlEvent>, st: RState) -> (Result<(UtcTime, UtcTime), ParsingError>, RState) {
        span_spec(evs, st, "expand"@)
    }

    fn qread(xml: &mut Reader) -> (r: Result<Self, ParsingError>) {
        let (a, b) = read_span(xml, "expand")?;
        Ok(Expand(a, b))
    }
}

impl QRead for LimitRecurrenceSet {
    open spec fn qread_spec(evs: Seq<XmlEvent>, st: RState) -> (Result<(UtcTime, UtcTime), ParsingError>, RState) {
        span_spec(evs, st, "limit-recurrence-set"@)
    }

    fn qread(xml: &mut Reader) -> (r: Result<Self, ParsingError>) {
        let (a, b) = read_span(xml, "limit-recurrence-set")?;
        Ok(LimitRecurrenceSet(a, b))
    }
}

impl QRead for LimitFreebusySet {
    open spec fn qread_spec(evs: Seq<XmlEvent>, st: RState) -> (Result<(UtcTime, UtcTime), ParsingError>, RState) {
        span_spec(evs, st, "limit-freebusy-set"@)
    }

    fn qread(xml: &mut Reader) -> (r: Result<Self, ParsingError>) {
        let (a, b) = read_span(xml, "limit-freebusy-set")?;
        Ok(LimitFreebusySet(a, b))
    }
}

/// An expansion, else a limited recurrence set.
pub open spec fn recurrence_spec(evs: Seq<XmlEvent>, st: RState) -> (Result<RecurrenceModifier, ParsingError>, RState) {
    match span_spec(evs, st, "expand"@) {
        (Ok((a, b)), s) => (Ok(RecurrenceModifier::Expand(Expand(a, b))), s),
        (Err(ParsingError::Recoverable), s1) => match span_spec(evs, s1, "limit-recurrence-set"@) {
            (Ok((a, b)), s) => (Ok(RecurrenceModifier::LimitRecurrenceSet(LimitRecurrenceSet(a, b))), s),
            (Err(e), s) => (Err(e), s),
        },
        (Err(e), s) => (Err(e), s),
    }
}

impl QRead for RecurrenceModifier {
    open spec fn qread_spec(evs: Seq<XmlEvent>, st: RState) -> (Result<RecurrenceModifier, ParsingError>, RState) {
        recurrence_spec(evs, st)
    }

    fn qread(xml: &mut Reader) -> (r: Result<Self, ParsingError>) {
        match read_span(xml, "expand") {
            Ok((a, b)) => return Ok(RecurrenceModifier::Expand(Expand(a, b))),
            Err(ParsingError::Recoverable) => {},
            Err(e) => return Err(e),
        }
        let (a, b) = read_span(xml, "limit-recurrence-set")?;
        Ok(RecurrenceModifier::LimitRecurrenceSet(LimitRecurrenceSet(a, b)))
    }
}

/// The children of a `<C:calendar-data>` request from the current event
/// on, after `c`, `r` and `l`: the last component selection, recurrence
/// modifier and free-busy limit up to the closing tag, other nodes skipped.
pub open spec fn data_request_loop(
    evs: Seq<XmlEvent>,
    st: RState,
    c: Option<CompView>,
    r: Option<RecurrenceModifier>,
    l: Option<(UtcTime, UtcTime)>,
) -> (Result<(Option<CompView>, Option<RecurrenceModifier>, Option<(UtcTime, UtcTime)>), ParsingError>, RState)
    decreases evs.len() - st.pos,
{
    let (r1, s1, c1, d1) = maybe_read_spec::<Comp>(evs, st, c, false);
    if r1 is Err {
        (Err(r1->Err_0), s1)
    } else {
        let (r2, s2, rm1, d2) = maybe_read_spec::<RecurrenceModifier>(evs, s1, r, d1);
        if r2 is Err {
            (Err(r2->Err_0), s2)
        } else {
            let (r3, s3, l1, d3) = maybe_read_spec::<LimitFreebusySet>(evs, s2, l, d2);
            if r3 is Err {
                (Err(r3->Err_0), s3)
            } else if d3 {
                if st.pos < s3.pos <= evs.len() {
                    data_request_loop(evs, s3, c1, rm1, l1)
                } else {
                    (Err(ParsingError::Eof), s3)
                }
            } else if 0 <= s3.pos < evs.len() {
                if evs[s3.pos] is End {
                    (Ok((c1, rm1, l1)), s3)
                } else {
                    match skip_spec(evs, s3) {
                        (Err(e), s4) => (Err(e), s4),
                        (Ok(_), s4) => if st.pos < s4.pos <= evs.len() {
                            data_request_loop(evs, s4, c1, rm1, l1)
                        } else {
                            (Err(ParsingError::Eof), s4)
                        },
                    }
                }
            } else {
                (Err(ParsingError::Eof), s3)
            }
        }
    }
}

/// `<C:calendar-data>` in a request: its media type and version, and,
/// unless it is self-closing, the component selection, recurrence
/// modifier and free-busy limit among its children.
pub open spec fn calendar_data_request_spec(evs: Seq<XmlEvent>, st: RState) -> (
    Result<CalendarDataRequestView, ParsingError>,
    RState,
) {
    match open_spec(evs, st, CAL_URN@, "calendar-data"@) {
        (Err(e), s) => (Err(e), s),
        (Ok(_), s1) => match (if parent_has_child_spec(evs, s1) {
            data_request_loop(evs, s1, None, None, None)
        } else {
            (Ok((None, None, None)), s1)
        }) {
            (Err(e), s) => (Err(e), s),
            (Ok((c, r, l)), s2) => match close_spec(evs, s2) {
                (Err(e), s) => (Err(e), s),
                (Ok(_), s3) => (
                    Ok(
                        CalendarDataRequestView {
                            mime: mime_attrs(evs, s1),
                            comp: c,
                            recurrence: r,
                            limit_freebusy_set: l,
                        },
                    ),
                    s3,
                ),
            },
        },
    }
}

/// Reads the children of a calendar-data request; see `data_request_loop`.
#[verifier::spinoff_prover]
#[verifier::rlimit(60)]
fn read_data_request(xml: &mut Reader) -> (r: Result<
    (Option<Comp>, Option<RecurrenceModifier>, Option<LimitFreebusySet>),
    ParsingError,
>)
    requires
        old(xml).wf(),
    ensures
        final(xml).wf(),
        final(xml).evs() == old(xml).evs(),
        ({
            let sp = data_request_loop(old(xml).evs(), old(xml).st(), None, None, None);
            &&& match r {
                Ok((c, m, l)) => sp.0 == Ok::<
                    (Option<CompView>, Option<RecurrenceModifier>, Option<(UtcTime, UtcTime)>),
                    ParsingError,
                >((opt_view(c), opt_view(m), opt_view(l))),
                Err(e) => sp.0 == Err::<
                    (Option<CompView>, Option<RecurrenceModifier>, Option<(UtcTime, UtcTime)>),
                    ParsingError,
                >(e),
            }
            &&& final(xml).st() == sp.1
        }),
        final(xml).st().pos >= old(xml).st().pos,
{
    let ghost evs = xml.evs();
    let ghost st0 = xml.st();
    let mut comp: Option<Comp> = None;
    let mut recurrence: Option<RecurrenceModifier> = None;
    let mut limit: Option<LimitFreebusySet> = None;
    loop
        invariant
            xml.wf(),
            xml.evs() == evs,
            evs == old(xml).evs(),
            st0 == old(xml).st(),
            xml.st().pos >= st0.pos,
            data_request_loop(evs, xml.st(), opt_view(comp), opt_view(recurrence), opt_view(limit)) == data_request_loop(
                evs,
                st0,
                None,
                None,
                None,
            ),
        decreases evs.len() - xml.st().pos,
    {
        let ghost here = xml.st();
        let mut dirty = false;
        xml.maybe_read(&mut comp, &mut dirty)?;
        xml.maybe_read(&mut recurrence, &mut dirty)?;
        xml.maybe_read(&mut limit, &mut dirty)?;
        if !dirty {
            if let XmlEvent::End(_) = xml.peek() {
                return Ok((comp, recurrence, limit));
            }
            proof {
                lemma_skip(evs, xml.st());
            }
            xml.skip()?;
        }
        assert(here.pos < xml.st().pos);
    }
}

impl QRead for CalendarDataRequest {
    open spec fn qread_spec(evs: Seq<XmlEvent>, st: RState) -> (Result<CalendarDataRequestView, ParsingError>, RState) {
        calendar_data_request_spec(evs, st)
    }

    fn qread(xml: &mut Reader) -> (r: Result<Self, ParsingError>) {
        xml.open(CAL_URN, "calendar-data")?;
        let mime = read_mime(xml);
        let (comp, recurrence, limit_freebusy_set) = if xml.parent_has_child() {
            read_data_request(xml)?
        } else {
            (None, None, None)
        };
        xml.close()?;
        Ok(CalendarDataRequest { mime, comp, recurrence, limit_freebusy_set })
    }
}

// --- Reports and MKCALENDAR ---

/// `<C:timezone>`: the iCalendar text it holds.
pub open spec fn timezone_spec(evs: Seq<XmlEvent>, st: RState) -> (Result<Seq<char>, ParsingError>, RState) {
    match open_spec(evs, st, CAL_URN@, "timezone"@) {
        (Err(e), s) => (Err(e), s),
        (Ok(_), s1) => match tag_string_spec(evs, s1) {
            (Err(e), s) => (Err(e), s),
            (Ok(t), s2) => match close_spec(evs, s2) {
                (Err(e), s) => (Err(e), s),
                (Ok(_), s3) => (Ok(t), s3),
            },
        },
    }
}

impl QRead for TimeZone {
    open spec fn qread_spec(evs: Seq<XmlEvent>, st: RState) -> (Result<Seq<char>, ParsingError>, RState) {
        timezone_spec(evs, st)
    }

    fn qread(xml: &mut Reader) -> (r: Result<Self, ParsingError>) {
        xml.open(CAL_URN, "timezone")?;
        let inner = xml.tag_string()?;
        xml.close()?;
        Ok(TimeZone(inner))
    }
}

/// `<C:filter>`: the first comp-filter among its children.
pub open spec fn filter_spec(evs: Seq<XmlEvent>, st: RState) -> (Result<CompFilterView, ParsingError>, RState) {
    match open_spec(evs, st, CAL_URN@, "filter"@) {
        (Err(e), s) => (Err(e), s),
        (Ok(_), s1) => find_close_spec::<CompFilter>(evs, s1),
    }
}

impl QRead for Filter {
    open spec fn qread_spec(evs: Seq<XmlEvent>, st: RState) -> (Result<CompFilterView, ParsingError>, RState) {
        filter_spec(evs, st)
    }

    fn qread(xml: &mut Reader) -> (r: Result<Self, ParsingError>) {
        xml.open(CAL_URN, "filter")?;
        let comp_filter = find_close::<CompFilter>(xml)?;
        Ok(Filter(comp_filter))
    }
}

/// `<C:free-busy-query>`: the first time range among its children.
pub open spec fn free_busy_query_spec(evs: Seq<XmlEvent>, st: RState) -> (Result<TimeRange, ParsingError>, RState) {
    match open_spec(evs, st, CAL_URN@, "free-busy-query"@) {
        (Err(e), s) => (Err(e), s),
        (Ok(_), s1) => find_close_spec::<TimeRange>(evs, s1),
    }
}

impl QRead for FreeBusyQuery {
    open spec fn qread_spec(evs: Seq<XmlEvent>, st: RState) -> (Result<TimeRange, ParsingError>, RState) {
        free_busy_query_spec(evs, st)
    }

    fn qread(xml: &mut Reader) -> (r: Result<Self, ParsingError>) {
        xml.open(CAL_URN, "free-busy-query")?;
        let range = find_close::<TimeRange>(xml)?;
        Ok(FreeBusyQuery(range))
    }
}

/// Which properties a report returns: `<D:allprop/>`, `<D:propname/>` or
/// `<D:prop>` with property names; none of them is `Recoverable`.
pub open spec fn cal_selector_spec<E: Extension>(evs: Seq<XmlEvent>, st: RState) -> (
    Result<CalendarSelectorView<<E::PropertyRequest as View>::V>, ParsingError>,
    RState,
) where E::PropertyRequest: QRead {
    match atoms_spec(evs, st, DAV_URN@, seq!["allprop"@, "propname"@], 0) {
        (Ok(i), s) => (Ok(if i == 0 { CalendarSelectorView::AllProp } else { CalendarSelectorView::PropName }), s),
        (Err(ParsingError::Recoverable), s1) => match maybe_read_spec::<PropName<E>>(evs, s1, None, false) {
            (Err(e), s, _, _) => (Err(e), s),
            (Ok(_), s, Some(p), _) => (Ok(CalendarSelectorView::Prop(p)), s),
            (Ok(_), s, None, _) => (Err(ParsingError::Recoverable), s),
        },
        (Err(e), s) => (Err(e), s),
    }
}

impl<E: Extension> QRead for CalendarSelector<E> where E::PropertyRequest: QRead {
    open spec fn qread_spec(evs: Seq<XmlEvent>, st: RState) -> (Result<Self::V, ParsingError>, RState) {
        cal_selector_spec::<E>(evs, st)
    }

    fn qread(xml: &mut Reader) -> (r: Result<Self, ParsingError>) {
        let keys: Vec<&str> = vec!["allprop", "propname"];
        assert(keys_view(keys@) =~= seq!["allprop"@, "propname"@]);
        match xml.read_atom(DAV_URN, &keys) {
            Ok(i) => return Ok(if i == 0 { CalendarSelector::AllProp } else { CalendarSelector::PropName }),
            Err(ParsingError::Recoverable) => {},
            Err(e) => return Err(e),
        }
        let mut maybe_prop: Option<PropName<E>> = None;
        let mut dirty = false;
        xml.maybe_read::<PropName<E>>(&mut maybe_prop, &mut dirty)?;
        match maybe_prop {
            Some(prop) => Ok(CalendarSelector::Prop(prop)),
            None => Err(ParsingError::Recoverable),
        }
    }
}

/// What has been read of a calendar-query report so far.
pub struct CalQuerySlots<Q> {
    pub selector: Option<CalendarSelectorView<Q>>,
    pub filter: Option<CompFilterView>,
    pub timezone: Option<Seq<char>>,
}

/// One pass over the children of a calendar-query report: the selector,
/// the filter and the time zone, each read where it stands.
pub open spec fn cal_query_step<E: Extension>(
    evs: Seq<XmlEvent>,
    st: RState,
    sl: CalQuerySlots<<E::PropertyRequest as View>::V>,
) -> (Result<(), ParsingError>, RState, CalQuerySlots<<E::PropertyRequest as View>::V>, bool) where
    E::PropertyRequest: QRead,
 {
    let (r1, s1, a, d1) = maybe_read_spec::<CalendarSelector<E>>(evs, st, sl.selector, false);
    if r1 is Err {
        (r1, s1, CalQuerySlots { selector: a, ..sl }, d1)
    } else {
        let (r2, s2, b, d2) = maybe_read_spec::<Filter>(evs, s1, sl.filter, d1);
        if r2 is Err {
            (r2, s2, CalQuerySlots { selector: a, filter: b, ..sl }, d2)
        } else {
            let (r3, s3, c, d3) = maybe_read_spec::<TimeZone>(evs, s2, sl.timezone, d2);
            (r3, s3, CalQuerySlots { selector: a, filter: b, timezone: c }, d3)
        }
    }
}

/// Passes over the children of a calendar-query report until a pass reads
/// nothing at its closing tag; the nodes where nothing reads are skipped.
pub open spec fn cal_query_loop<E: Extension>(
    evs: Seq<XmlEvent>,
    st: RState,
    sl: CalQuerySlots<<E::PropertyRequest as View>::V>,
) -> (Result<(), ParsingError>, RState, CalQuerySlots<<E::PropertyRequest as View>::V>) where
    E::PropertyRequest: QRead,
    decreases evs.len() - st.pos,
{
    let (r, s, sl2, dirty) = cal_query_step::<E>(evs, st, sl);
    if r is Err {
        (r, s, sl2)
    } else if dirty {
        if st.pos < s.pos <= evs.len() {
            cal_query_loop::<E>(evs, s, sl2)
        } else {
            (Err(ParsingError::Eof), s, sl2)
        }
    } else if 0 <= s.pos < evs.len() {
        if evs[s.pos] is End {
            (Ok(()), s, sl2)
        } else {
            match skip_spec(evs, s) {
                (Err(e), s2) => (Err(e), s2, sl2),
                (Ok(_), s2) => if st.pos < s2.pos <= evs.len() {
                    cal_query_loop::<E>(evs, s2, sl2)
                } else {
                    (Err(ParsingError::Eof), s2, sl2)
                },
            }
        }
    } else {
        (Err(ParsingError::Eof), s, sl2)
    }
}

/// `<C:calendar-query>`: a filter, required, with an optional selector and
/// time zone.
pub open spec fn calendar_query_spec<E: Extension>(evs: Seq<XmlEvent>, st: RState) -> (
    Result<CalendarQueryView<<E::PropertyRequest as View>::V>, ParsingError>,
    RState,
) where E::PropertyRequest: QRead {
    match open_spec(evs, st, CAL_URN@, "calendar-query"@) {
        (Err(e), s) => (Err(e), s),
        (Ok(_), s1) => match cal_query_loop::<E>(evs, s1, CalQuerySlots { selector: None, filter: None, timezone: None }) {
            (Err(e), s, _) => (Err(e), s),
            (Ok(_), s2, sl) => match close_spec(evs, s2) {
                (Err(e), s) => (Err(e), s),
                (Ok(_), s3) => match sl.filter {
                    Some(f) => (Ok(CalendarQueryView { selector: sl.selector, filter: f, timezone: sl.timezone }), s3),
                    None => (Err(ParsingError::MissingChild), s3),
                },
            },
        },
    }
}

impl<E: Extension> QRead for CalendarQuery<E> where E::PropertyRequest: QRead {
    open spec fn qread_spec(evs: Seq<XmlEvent>, st: RState) -> (Result<Self::V, ParsingError>, RState) {
        calendar_query_spec::<E>(evs, st)
    }

    fn qread(xml: &mut Reader) -> (r: Result<Self, ParsingError>) {
        xml.open(CAL_URN, "calendar-query")?;
        let ghost evs = xml.evs();
        let ghost s1 = xml.st();
        let ghost start = old(xml).st();
        let mut selector: Option<CalendarSelector<E>> = None;
        let mut filter: Option<Filter> = None;
        let mut timezone: Option<TimeZone> = None;
        loop
            invariant_except_break
                cal_query_loop::<E>(
                    evs,
                    xml.st(),
                    CalQuerySlots { selector: opt_view(selector), filter: opt_view(filter), timezone: opt_view(timezone) },
                ) == cal_query_loop::<E>(evs, s1, CalQuerySlots { selector: None, filter: None, timezone: None }),
            invariant
                xml.wf(),
                xml.evs() == evs,
                evs == old(xml).evs(),
                start == old(xml).st(),
                xml.st().pos >= s1.pos,
                s1.pos >= start.pos,
                open_spec(evs, start, CAL_URN@, "calendar-query"@).1 == s1,
                open_spec(evs, start, CAL_URN@, "calendar-query"@).0 is Ok,
            ensures
                cal_query_loop::<E>(evs, s1, CalQuerySlots { selector: None, filter: None, timezone: None }) == (
                    Ok::<(), ParsingError>(()),
                    xml.st(),
                    CalQuerySlots { selector: opt_view(selector), filter: opt_view(filter), timezone: opt_view(timezone) },
                ),
            decreases evs.len() - xml.st().pos,
        {
            let ghost here = xml.st();
            let mut dirty = false;
            xml.maybe_read(&mut selector, &mut dirty)?;
            xml.maybe_read(&mut filter, &mut dirty)?;
            xml.maybe_read(&mut timezone, &mut dirty)?;
            if !dirty {
                if let XmlEvent::End(_) = xml.peek() {
                    break;
                }
                proof {
                    lemma_skip(evs, xml.st());
                }
                xml.skip()?;
            }
            assert(here.pos < xml.st().pos);
        }
        xml.close()?;
        match filter {
            Some(filter) => Ok(CalendarQuery { selector, filter, timezone }),
            None => Err(ParsingError::MissingChild),
        }
    }
}

/// Passes over the children of a calendar-multiget report, reading the
/// selector and the references where they stand, until a pass reads
/// nothing at its closing tag.
pub open spec fn cal_multiget_loop<E: Extension>(
    evs: Seq<XmlEvent>,
    st: RState,
    sel: Option<CalendarSelectorView<<E::PropertyRequest as View>::V>>,
    href: Seq<Seq<char>>,
) -> (Result<(), ParsingError>, RState, Option<CalendarSelectorView<<E::PropertyRequest as View>::V>>, Seq<Seq<char>>) where
    E::PropertyRequest: QRead,
    decreases evs.len() - st.pos,
{
    let (r1, s1, a, d1) = maybe_read_spec::<CalendarSelector<E>>(evs, st, sel, false);
    if r1 is Err {
        (r1, s1, a, href)
    } else {
        let (r2, s2, b, d2) = maybe_push_spec::<Href>(evs, s1, href, d1);
        if r2 is Err {
            (r2, s2, a, b)
        } else if d2 {
            if st.pos < s2.pos <= evs.len() {
                cal_multiget_loop::<E>(evs, s2, a, b)
            } else {
                (Err(ParsingError::Eof), s2, a, b)
            }
        } else if 0 <= s2.pos < evs.len() {
            if evs[s2.pos] is End {
                (Ok(()), s2, a, b)
            } else {
                match skip_spec(evs, s2) {
                    (Err(e), s3) => (Err(e), s3, a, b),
                    (Ok(_), s3) => if st.pos < s3.pos <= evs.len() {
                        cal_multiget_loop::<E>(evs, s3, a, b)
                    } else {
                        (Err(ParsingError::Eof), s3, a, b)
                    },
                }
            }
        } else {
            (Err(ParsingError::Eof), s2, a, b)
        }
    }
}

/// `<C:calendar-multiget>`: an optional selector and the references.
pub open spec fn calendar_multiget_spec<E: Extension>(evs: Seq<XmlEvent>, st: RState) -> (
    Result<CalendarMultigetView<<E::PropertyRequest as View>::V>, ParsingError>,
    RState,
) where E::PropertyRequest: QRead {
    match open_spec(evs, st, CAL_URN@, "calendar-multiget"@) {
        (Err(e), s) => (Err(e), s),
        (Ok(_), s1) => match cal_multiget_loop::<E>(evs, s1, None, Seq::empty()) {
            (Err(e), s, _, _) => (Err(e), s),
            (Ok(_), s2, sel, href) => match close_spec(evs, s2) {
                (Err(e), s) => (Err(e), s),
                (Ok(_), s3) => (Ok(CalendarMultigetView { selector: sel, href }), s3),
            },
        },
    }
}

impl<E: Extension> QRead for CalendarMultiget<E> where E::PropertyRequest: QRead {
    open spec fn qread_spec(evs: Seq<XmlEvent>, st: RState) -> (Result<Self::V, ParsingError>, RState) {
        calendar_multiget_spec::<E>(evs, st)
    }

    fn qread(xml: &mut Reader) -> (r: Result<Self, ParsingError>) {
        xml.open(CAL_URN, "calendar-multiget")?;
        let ghost evs = xml.evs();
        let ghost s1 = xml.st();
        let ghost start = old(xml).st();
        let mut selector: Option<CalendarSelector<E>> = None;
        let mut href: Vec<Href> = Vec::new();
        proof {
            assert(views(href@) =~= Seq::<Seq<char>>::empty());
        }
        loop
            invariant_except_break
                cal_multiget_loop::<E>(evs, xml.st(), opt_view(selector), views(href@)) == cal_multiget_loop::<E>(
                    evs,
                    s1,
                    None,
                    Seq::empty(),
                ),
            invariant
                xml.wf(),
                xml.evs() == evs,
                evs == old(xml).evs(),
                start == old(xml).st(),
                xml.st().pos >= s1.pos,
                s1.pos >= start.pos,
                open_spec(evs, start, CAL_URN@, "calendar-multiget"@).1 == s1,
                open_spec(evs, start, CAL_URN@, "calendar-multiget"@).0 is Ok,
            ensures
                cal_multiget_loop::<E>(evs, s1, None, Seq::empty()) == (
                    Ok::<(), ParsingError>(()),
                    xml.st(),
                    opt_view(selector),
                    views(href@),
                ),
            decreases evs.len() - xml.st().pos,
        {
            let ghost here = xml.st();
            let mut dirty = false;
            xml.maybe_read(&mut selector, &mut dirty)?;
            xml.maybe_push(&mut href, &mut dirty)?;
            if !dirty {
                if let XmlEvent::End(_) = xml.peek() {
                    break;
                }
                proof {
                    lemma_skip(evs, xml.st());
                }
                xml.skip()?;
            }
            assert(here.pos < xml.st().pos);
        }
        xml.close()?;
        Ok(CalendarMultiget { selector, href })
    }
}

impl<E: Extension> QRead for ReportType<E> where E::PropertyRequest: QRead {
    /// A calendar-query report, else a calendar-multiget report, else a
    /// free-busy query, each tried where the previous attempt left the
    /// cursor.
    open spec fn qread_spec(evs: Seq<XmlEvent>, st: RState) -> (Result<Self::V, ParsingError>, RState) {
        match calendar_query_spec::<E>(evs, st) {
            (Ok(q), s) => (Ok(ReportTypeView::Query(q)), s),
            (Err(ParsingError::Recoverable), s1) => match calendar_multiget_spec::<E>(evs, s1) {
                (Ok(m), s) => (Ok(ReportTypeView::Multiget(m)), s),
                (Err(ParsingError::Recoverable), s2) => match free_busy_query_spec(evs, s2) {
                    (Ok(f), s) => (Ok(ReportTypeView::FreeBusy(f)), s),
                    (Err(e), s) => (Err(e), s),
                },
                (Err(e), s) => (Err(e), s),
            },
            (Err(e), s) => (Err(e), s),
        }
    }

    fn qread(xml: &mut Reader) -> (r: Result<Self, ParsingError>) {
        match CalendarQuery::<E>::qread(xml) {
            Ok(q) => return Ok(ReportType::Query(q)),
            Err(ParsingError::Recoverable) => {},
            Err(e) => return Err(e),
        }
        match CalendarMultiget::<E>::qread(xml) {
            Ok(m) => return Ok(ReportType::Multiget(m)),
            Err(ParsingError::Recoverable) => {},
            Err(e) => return Err(e),
        }
        match FreeBusyQuery::qread(xml) {
            Ok(f) => Ok(ReportType::FreeBusy(f)),
            Err(e) => Err(e),
        }
    }
}

impl<E: Extension> QRead for MkCalendar<E> where E::Property: QRead, E::ResourceType: QRead {
    /// `<C:mkcalendar>`: the first `<D:set>` among its children.
    open spec fn qread_spec(evs: Seq<XmlEvent>, st: RState) -> (Result<Self::V, ParsingError>, RState) {
        match open_spec(evs, st, CAL_URN@, "mkcalendar"@) {
            (Err(e), s) => (Err(e), s),
            (Ok(_), s1) => find_close_spec::<PropSet<E>>(evs, s1),
        }
    }

    fn qread(xml: &mut Reader) -> (r: Result<Self, ParsingError>) {
        xml.open(CAL_URN, "mkcalendar")?;
        let set = find_close::<PropSet<E>>(xml)?;
        Ok(MkCalendar(set))
    }
}

impl<E: Extension> QRead for MkCalendarResponse<E> where
    E::PropertyRequest: QRead,
    E::Property: QRead,
    E::ResourceType: QRead,
    E::Error: QRead,
 {
    /// `<C:mkcalendar-response>`: the propstats among its children.
    open spec fn qread_spec(evs: Seq<XmlEvent>, st: RState) -> (Result<Self::V, ParsingError>, RState) {
        match open_spec(evs, st, CAL_URN@, "mkcalendar-response"@) {
            (Err(e), s) => (Err(e), s),
            (Ok(_), s1) => collect_close_spec::<PropStat<E>>(evs, s1),
        }
    }

    fn qread(xml: &mut Reader) -> (r: Result<Self, ParsingError>) {
        xml.open(CAL_URN, "mkcalendar-response")?;
        let propstats = collect_close::<PropStat<E>>(xml)?;
        Ok(MkCalendarResponse(propstats))
    }
}

/// `<C:supported-collation>`: the collation its text names.
pub open spec fn cal_supported_collation_spec(evs: Seq<XmlEvent>, st: RState) -> (
    Result<CollationView, ParsingError>,
    RState,
) {
    match open_spec(evs, st, CAL_URN@, "supported-collation"@) {
        (Err(e), s) => (Err(e), s),
        (Ok(_), s1) => match tag_string_spec(evs, s1) {
            (Err(e), s) => (Err(e), s),
            (Ok(t), s2) => match close_spec(evs, s2) {
                (Err(e), s) => (Err(e), s),
                (Ok(_), s3) => (Ok(collation_view_of(t)), s3),
            },
        },
    }
}

impl QRead for SupportedCollation {
    open spec fn qread_spec(evs: Seq<XmlEvent>, st: RState) -> (Result<CollationView, ParsingError>, RState) {
        cal_supported_collation_spec(evs, st)
    }

    fn qread(xml: &mut Reader) -> (r: Result<Self, ParsingError>) {
        xml.open(CAL_URN, "supported-collation")?;
        let col = Collation::new(xml.tag_string()?);
        xml.close()?;
        Ok(SupportedCollation(col))
    }
}

} // verus!
