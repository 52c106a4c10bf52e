use aerogramme_core::dav::caltypes::{
    CalProp, CalendarDataEmpty, CalendarDataPayload, CalendarDataRequest, CalendarDataSupport, CalendarMultiget,
    CalendarQuery, CalendarSelector, Collation, Comp, CompFilter, CompFilterMatch, CompFilterRules, CompKind,
    CompSupport, Component, ComponentProperty, Expand, Filter, FreeBusyQuery, LimitFreebusySet, LimitRecurrenceSet,
    MkCalendar, MkCalendarResponse, ParamFilter, ParamFilterMatch, PropFilter, PropFilterMatch, PropFilterRules,
    PropKind, Property, PropertyParameter, PropertyRequest, RecurrenceModifier, ReportType, ResourceType,
    SupportedCollation, TextMatch, TimeOrText, TimeRange, TimeZone, UtcTime, Violation,
};
use aerogramme_core::dav::error::ParsingError;
use aerogramme_core::dav::cardtypes::PropertyRequest as CardPropertyRequest;
use aerogramme_core::dav::realization::{
    All, Calendar, CalendarReport, PropertyRequest as AllPropertyRequest, ResourceType as AllResourceType,
};
use aerogramme_core::dav::types as dav;
use aerogramme_core::dav::xml::{QRead, QWrite, Reader, WEvent, Writer, XmlEvent, XmlName, XmlTag};
use quick_xml::events::{BytesEnd, BytesStart, BytesText, Event};
use quick_xml::name::ResolveResult;

/// The events an XML reader gives for a document.
fn events_of(src: &str) -> Vec<XmlEvent> {
    let mut rdr = quick_xml::NsReader::from_reader(src.as_bytes());
    let mut buf = Vec::new();
    let mut out = Vec::new();
    loop {
        let ev = match rdr.read_event_into(&mut buf) {
            Err(_) => {
                out.push(XmlEvent::Fail);
                break;
            }
            Ok(e) => e.into_owned(),
        };
        let name_of = |rdr: &quick_xml::NsReader<&[u8]>, q: quick_xml::name::QName| {
            let (ns, local) = rdr.resolve_element(q);
            XmlName {
                qname: String::from_utf8_lossy(q.as_ref()).into_owned(),
                ns: match ns {
                    ResolveResult::Bound(n) => Some(String::from_utf8_lossy(n.as_ref()).into_owned()),
                    _ => None,
                },
                local: String::from_utf8_lossy(local.as_ref()).into_owned(),
            }
        };
        let tag_of = |rdr: &quick_xml::NsReader<&[u8]>, b: &BytesStart| {
            let mut attrs = Vec::new();
            for a in b.attributes() {
                match a {
                    Ok(a) => attrs.push((
                        String::from_utf8_lossy(a.key.as_ref()).into_owned(),
                        a.decode_and_unescape_value(rdr).ok().map(|v| v.into_owned()),
                    )),
                    Err(_) => break,
                }
            }
            XmlTag { name: name_of(rdr, b.name()), attrs }
        };
        match ev {
            Event::Start(b) => out.push(XmlEvent::Start(tag_of(&rdr, &b))),
            Event::Empty(b) => out.push(XmlEvent::Empty(tag_of(&rdr, &b))),
            Event::End(b) => out.push(XmlEvent::End(name_of(&rdr, b.name()))),
            Event::Text(t) => out.push(XmlEvent::Text(t.unescape().ok().map(|v| v.into_owned()))),
            Event::CData(c) => out.push(XmlEvent::CData(String::from_utf8(c.into_inner().into_owned()).ok())),
            Event::Eof => {
                out.push(XmlEvent::Eof);
                break;
            }
            _ => out.push(XmlEvent::Other),
        }
        buf.clear();
    }
    out
}

fn deserialize<T: QRead>(src: &str) -> T {
    let mut rdr = Reader::new(events_of(src)).unwrap();
    rdr.find().unwrap()
}

/// The text of written events, indented by four spaces.
fn to_text(events: &[WEvent]) -> String {
    let mut w = quick_xml::Writer::new_with_indent(Vec::new(), b' ', 4);
    for e in events {
        let ev = match e {
            WEvent::Start(s) | WEvent::Empty(s) => {
                let mut b = BytesStart::new(s.qname.as_str());
                for (k, v) in s.attrs.iter() {
                    b.push_attribute((k.as_str(), v.as_str()));
                }
                if matches!(e, WEvent::Start(_)) {
                    Event::Start(b)
                } else {
                    Event::Empty(b)
                }
            }
            WEvent::End(q) => Event::End(BytesEnd::new(q.as_str())),
            WEvent::Text(t) => Event::Text(BytesText::new(t.as_str())),
        };
        w.write_event(ev).unwrap();
    }
    String::from_utf8(w.into_inner()).unwrap()
}

fn serialize<T: QWrite>(v: &T) -> String {
    let ns = vec![
        ("xmlns:D".to_string(), "DAV:".to_string()),
        ("xmlns:C".to_string(), "urn:ietf:params:xml:ns:caldav".to_string()),
    ];
    let mut writer = Writer::new(ns);
    v.qwrite(&mut writer);
    to_text(&writer.events)
}

fn serialize_deserialize<T: QRead + QWrite>(src: &T) -> T {
    deserialize(&serialize(src))
}

fn try_deserialize<T: QRead>(src: &str) -> Result<T, ParsingError> {
    let mut rdr = Reader::new(events_of(src)).unwrap();
    rdr.find()
}

#[test]
fn calencoder_violation_in_caldav_namespace() {
    let expected = r#"<C:resource-must-be-null xmlns:D="DAV:" xmlns:C="urn:ietf:params:xml:ns:caldav"/>"#;
    assert_eq!(serialize(&Violation::ResourceMustBeNull), expected);

    let expected = r#"<D:need-privileges xmlns:D="DAV:" xmlns:C="urn:ietf:params:xml:ns:caldav"/>"#;
    assert_eq!(serialize(&Violation::NeedPrivileges), expected);
}

#[test]
fn caldecoder_dav_violations() {
    let src = r#"<D:resource-must-be-null xmlns:D="DAV:"/>"#;
    assert_eq!(deserialize::<Violation>(src), Violation::ResourceMustBeNull);
    let src = r#"<D:need-privileges xmlns:D="DAV:"/>"#;
    assert_eq!(deserialize::<Violation>(src), Violation::NeedPrivileges);
}

#[test]
fn caldecoder_error_with_uid_conflict() {
    let src = r#"<D:error xmlns:D="DAV:" xmlns:C="urn:ietf:params:xml:ns:caldav">
  <C:no-uid-conflict><D:href>/bernard/work/abcd.ics</D:href></C:no-uid-conflict>
  <C:max-instances/>
</D:error>"#;
    let got = deserialize::<dav::Error<Calendar>>(src);
    assert_eq!(
        got,
        dav::Error(vec![
            dav::Violation::Extension(Violation::NoUidConflict(dav::Href("/bernard/work/abcd.ics".into()))),
            dav::Violation::Extension(Violation::MaxInstances),
        ])
    );
}

#[test]
fn cal_violation_roundtrip() {
    let all = vec![
        Violation::NeedPrivileges,
        Violation::CalendarCollectionLocationOk,
        Violation::ValidCalendarData,
        Violation::InitializeCalendarCollection,
        Violation::SupportedCalendarData,
        Violation::ValidCalendarObjectResource,
        Violation::SupportedCalendarComponent,
        Violation::NoUidConflict(dav::Href("/cal/a.ics".into())),
        Violation::MaxResourceSize,
        Violation::MinDateTime,
        Violation::MaxDateTime,
        Violation::MaxInstances,
        Violation::MaxAttendeesPerInstance,
        Violation::ValidFilter,
        Violation::NumberOfMatchesWithinLimits,
    ];
    for v in all {
        assert_eq!(serialize_deserialize(&v), v);
    }
}

#[test]
fn cal_property_request_and_resource_type_roundtrip() {
    let all = vec![
        PropertyRequest::CalendarHomeSet,
        PropertyRequest::CalendarDescription,
        PropertyRequest::CalendarTimezone,
        PropertyRequest::SupportedCalendarComponentSet,
        PropertyRequest::SupportedCalendarData,
        PropertyRequest::MaxResourceSize,
        PropertyRequest::MinDateTime,
        PropertyRequest::MaxDateTime,
        PropertyRequest::MaxInstances,
        PropertyRequest::MaxAttendeesPerInstance,
        PropertyRequest::SupportedCollationSet,
    ];
    for p in all {
        assert_eq!(serialize_deserialize(&p), p);
    }
    assert_eq!(serialize(&ResourceType::Calendar), r#"<C:calendar xmlns:D="DAV:" xmlns:C="urn:ietf:params:xml:ns:caldav"/>"#);
    assert_eq!(serialize_deserialize(&ResourceType::Calendar), ResourceType::Calendar);
}

#[test]
fn cal_property_roundtrip() {
    let mime = Some(CalendarDataSupport { content_type: "text/calendar".into(), version: "2.0".into() });
    let all = vec![
        Property::CalendarHomeSet(dav::Href("/bernard/".into())),
        Property::CalendarDescription { lang: Some("fr-CA".into()), text: "Calendrier de Mathilde".into() },
        Property::CalendarDescription { lang: None, text: "Work".into() },
        Property::CalendarTimezone("BEGIN:VCALENDAR".into()),
        Property::SupportedCalendarComponentSet(vec![
            CompSupport(Component::VEvent),
            CompSupport(Component::VTodo),
            CompSupport(Component::Unknown("X-THING".into())),
        ]),
        Property::SupportedCalendarData(vec![CalendarDataEmpty(mime.clone()), CalendarDataEmpty(None)]),
        Property::MaxResourceSize(102400),
        Property::MaxDateTime(UtcTime { secs: 1136332800, nanos: 0 }),
        Property::MaxInstances(100),
        Property::MaxAttendeesPerInstance(25),
        Property::CalendarData(CalendarDataPayload { mime, payload: "BEGIN:VCALENDAR".into() }),
    ];
    for p in all {
        assert_eq!(serialize_deserialize(&p), p);
    }
}

#[test]
fn calencoder_date_time_text() {
    let expected = r#"<C:min-date-time xmlns:D="DAV:" xmlns:C="urn:ietf:params:xml:ns:caldav">20060104T000000Z</C:min-date-time>"#;
    assert_eq!(serialize(&Property::MinDateTime(UtcTime { secs: 1136332800, nanos: 0 })), expected);
}

#[test]
fn calencoder_rfc_supported_component_set() {
    let got = Property::SupportedCalendarComponentSet(vec![CompSupport(Component::VEvent), CompSupport(Component::VTodo)]);
    let expected = r#"<C:supported-calendar-component-set xmlns:D="DAV:" xmlns:C="urn:ietf:params:xml:ns:caldav">
    <C:comp name="VEVENT"/>
    <C:comp name="VTODO"/>
</C:supported-calendar-component-set>"#;
    assert_eq!(serialize(&got), expected);
}

#[test]
fn caldecoder_property_errors() {
    let src = r#"<C:max-instances xmlns:C="urn:ietf:params:xml:ns:caldav">many</C:max-instances>"#;
    assert_eq!(try_deserialize::<Property>(src), Err(ParsingError::Int));
    let src = r#"<C:max-date-time xmlns:C="urn:ietf:params:xml:ns:caldav">tomorrow</C:max-date-time>"#;
    assert_eq!(try_deserialize::<Property>(src), Err(ParsingError::Chrono));
    let src = r#"<C:supported-calendar-component-set xmlns:C="urn:ietf:params:xml:ns:caldav"><C:comp/></C:supported-calendar-component-set>"#;
    assert_eq!(try_deserialize::<Property>(src), Err(ParsingError::MissingAttribute));
}

#[test]
fn caldecoder_rfc_max_date_time() {
    let src = r#"<C:max-date-time xmlns:C="urn:ietf:params:xml:ns:caldav">20491231T235959Z</C:max-date-time>"#;
    assert_eq!(deserialize::<Property>(src), Property::MaxDateTime(UtcTime { secs: 2524607999, nanos: 0 }));
}

#[test]
fn caldecoder_propvalue_with_calendar_data() {
    let src = r#"<D:prop xmlns:D="DAV:" xmlns:C="urn:ietf:params:xml:ns:caldav">
  <D:getetag>"fffff-abcd2"</D:getetag>
  <C:calendar-data content-type="text/calendar" version="2.0">BEGIN:VCALENDAR</C:calendar-data>
</D:prop>"#;
    let got = deserialize::<dav::PropValue<Calendar>>(src);
    assert_eq!(
        got,
        dav::PropValue(vec![
            dav::Property::GetEtag("\"fffff-abcd2\"".into()),
            dav::Property::Extension(Property::CalendarData(CalendarDataPayload {
                mime: Some(CalendarDataSupport { content_type: "text/calendar".into(), version: "2.0".into() }),
                payload: "BEGIN:VCALENDAR".into(),
            })),
        ])
    );
}

#[test]
fn merged_dialect_reads_caldav_first() {
    let src = r#"<D:prop xmlns:D="DAV:" xmlns:C="urn:ietf:params:xml:ns:caldav" xmlns:A="urn:ietf:params:xml:ns:carddav">
  <C:max-resource-size/>
  <A:max-resource-size/>
  <C:calendar-home-set/>
</D:prop>"#;
    let got = deserialize::<dav::PropName<All>>(src);
    assert_eq!(
        got,
        dav::PropName(vec![
            dav::PropertyRequest::Extension(AllPropertyRequest::Cal(PropertyRequest::MaxResourceSize)),
            dav::PropertyRequest::Extension(AllPropertyRequest::Card(CardPropertyRequest::MaxResourceSize)),
            dav::PropertyRequest::Extension(AllPropertyRequest::Cal(PropertyRequest::CalendarHomeSet)),
        ])
    );
    let src = r#"<C:calendar xmlns:C="urn:ietf:params:xml:ns:caldav"/>"#;
    assert_eq!(
        deserialize::<dav::ResourceType<All>>(src),
        dav::ResourceType::Extension(AllResourceType::Cal(ResourceType::Calendar))
    );
}

#[test]
fn cal_time_range_codec() {
    let jan4 = UtcTime { secs: 1136332800, nanos: 0 };
    let jan5 = UtcTime { secs: 1136419200, nanos: 0 };
    let full = TimeRange::FullRange(jan4, jan5);
    let expected = r#"<C:time-range xmlns:D="DAV:" xmlns:C="urn:ietf:params:xml:ns:caldav" start="20060104T000000Z" end="20060105T000000Z"/>"#;
    assert_eq!(serialize(&full), expected);
    assert_eq!(serialize_deserialize(&full), full);
    assert_eq!(serialize_deserialize(&TimeRange::OnlyStart(jan4)), TimeRange::OnlyStart(jan4));
    assert_eq!(serialize_deserialize(&TimeRange::OnlyEnd(jan5)), TimeRange::OnlyEnd(jan5));

    let src = r#"<C:time-range xmlns:C="urn:ietf:params:xml:ns:caldav" start="20060105T000000Z" end="20060104T000000Z"/>"#;
    assert_eq!(try_deserialize::<TimeRange>(src), Err(ParsingError::InvalidValue));
    let src = r#"<C:time-range xmlns:C="urn:ietf:params:xml:ns:caldav"/>"#;
    assert_eq!(try_deserialize::<TimeRange>(src), Err(ParsingError::MissingAttribute));
    let src = r#"<C:time-range xmlns:C="urn:ietf:params:xml:ns:caldav" start="soon"/>"#;
    assert_eq!(try_deserialize::<TimeRange>(src), Err(ParsingError::Chrono));
}

fn utc_ymd(y: i64, mo: i64, d: i64) -> UtcTime {
    // Days from the civil date (proleptic Gregorian), for the dates of the RFC examples.
    let y2 = if mo <= 2 { y - 1 } else { y };
    let era = if y2 >= 0 { y2 } else { y2 - 399 } / 400;
    let yoe = y2 - era * 400;
    let mp = (mo + 9) % 12;
    let doy = (153 * mp + 2) / 5 + d - 1;
    let doe = yoe * 365 + yoe / 4 - yoe / 100 + doy;
    UtcTime { secs: (era * 146097 + doe - 719468) * 86400, nanos: 0 }
}

fn prop(name: &str) -> CalProp {
    CalProp { name: ComponentProperty(name.into()), novalue: None }
}

#[test]
fn simple_comp_filter() {
    let expected = CompFilter { name: Component::VEvent, additional_rules: None };
    let src = r#"<C:comp-filter name="VEVENT" xmlns:C="urn:ietf:params:xml:ns:caldav" />"#;
    let got = deserialize::<CompFilter>(src);
    assert_eq!(got, expected);
}

#[test]
fn basic_mkcalendar() {
    let expected = MkCalendar(dav::PropSet(dav::PropValue(vec![dav::Property::DisplayName("Lisa's Events".into())])));
    let src = r#"
<?xml version="1.0" encoding="utf-8" ?>
<C:mkcalendar xmlns:D="DAV:"
             xmlns:C="urn:ietf:params:xml:ns:caldav">
  <D:set>
    <D:prop>
      <D:displayname>Lisa's Events</D:displayname>
    </D:prop>
   </D:set>
 </C:mkcalendar>
"#;
    let got = deserialize::<MkCalendar<Calendar>>(src);
    assert_eq!(got, expected);
}

#[test]
fn rfc_mkcalendar() {
    let expected = MkCalendar(dav::PropSet(dav::PropValue(vec![
        dav::Property::DisplayName("Lisa's Events".into()),
        dav::Property::Extension(Property::CalendarDescription {
            lang: Some("en".into()),
            text: "Calendar restricted to events.".into(),
        }),
        dav::Property::Extension(Property::SupportedCalendarComponentSet(vec![CompSupport(Component::VEvent)])),
        dav::Property::Extension(Property::CalendarTimezone(
            "BEGIN:VCALENDAR\nPRODID:-//Example Corp.//CalDAV Client//EN\nVERSION:2.0\nEND:VCALENDAR".into(),
        )),
    ])));

    let src = r#"
   <?xml version="1.0" encoding="utf-8" ?>
   <C:mkcalendar xmlns:D="DAV:"
                 xmlns:C="urn:ietf:params:xml:ns:caldav">
     <D:set>
       <D:prop>
         <D:displayname>Lisa's Events</D:displayname>
         <C:calendar-description xml:lang="en"
   >Calendar restricted to events.</C:calendar-description>
         <C:supported-calendar-component-set>
           <C:comp name="VEVENT"/>
         </C:supported-calendar-component-set>
         <C:calendar-timezone><![CDATA[BEGIN:VCALENDAR
PRODID:-//Example Corp.//CalDAV Client//EN
VERSION:2.0
END:VCALENDAR]]></C:calendar-timezone>
       </D:prop>
     </D:set>
   </C:mkcalendar>"#;

    let got = deserialize::<MkCalendar<Calendar>>(src);
    assert_eq!(got, expected);
}

#[test]
fn rfc_calendar_query() {
    let props: Vec<CalProp> = ["SUMMARY", "UID", "DTSTART", "DTEND", "DURATION", "RRULE", "RDATE", "EXRULE", "EXDATE", "RECURRENCE-ID"]
        .iter()
        .map(|n| prop(n))
        .collect();
    let expected = CalendarQuery::<Calendar> {
        selector: Some(CalendarSelector::Prop(dav::PropName(vec![
            dav::PropertyRequest::GetEtag,
            dav::PropertyRequest::Extension(PropertyRequest::CalendarData(CalendarDataRequest {
                mime: None,
                comp: Some(Comp {
                    name: Component::VCalendar,
                    prop_kind: Some(PropKind::Prop(vec![prop("VERSION")])),
                    comp_kind: Some(CompKind::Comp(vec![
                        Comp { name: Component::VEvent, prop_kind: Some(PropKind::Prop(props)), comp_kind: None },
                        Comp { name: Component::VTimeZone, prop_kind: None, comp_kind: None },
                    ])),
                }),
                recurrence: None,
                limit_freebusy_set: None,
            })),
        ]))),
        filter: Filter(CompFilter {
            name: Component::VCalendar,
            additional_rules: Some(CompFilterRules::Matches(CompFilterMatch {
                prop_filter: vec![],
                comp_filter: vec![CompFilter {
                    name: Component::VEvent,
                    additional_rules: Some(CompFilterRules::Matches(CompFilterMatch {
                        prop_filter: vec![],
                        comp_filter: vec![],
                        time_range: Some(TimeRange::FullRange(utc_ymd(2006, 1, 4), utc_ymd(2006, 1, 5))),
                    })),
                }],
                time_range: None,
            })),
        }),
        timezone: None,
    };

    let src = r#"
<?xml version="1.0" encoding="utf-8" ?>
<C:calendar-query xmlns:D="DAV:"
             xmlns:C="urn:ietf:params:xml:ns:caldav">
 <D:prop>
   <D:getetag/>
   <C:calendar-data>
     <C:comp name="VCALENDAR">
       <C:prop name="VERSION"/>
       <C:comp name="VEVENT">
         <C:prop name="SUMMARY"/>
         <C:prop name="UID"/>
         <C:prop name="DTSTART"/>
         <C:prop name="DTEND"/>
         <C:prop name="DURATION"/>
         <C:prop name="RRULE"/>
         <C:prop name="RDATE"/>
         <C:prop name="EXRULE"/>
         <C:prop name="EXDATE"/>
         <C:prop name="RECURRENCE-ID"/>
       </C:comp>
       <C:comp name="VTIMEZONE"/>
     </C:comp>
   </C:calendar-data>
 </D:prop>
 <C:filter>
   <C:comp-filter name="VCALENDAR">
     <C:comp-filter name="VEVENT">
       <C:time-range start="20060104T000000Z"
                     end="20060105T000000Z"/>
     </C:comp-filter>
   </C:comp-filter>
 </C:filter>
</C:calendar-query>
"#;

    let got = deserialize::<CalendarQuery<Calendar>>(src);
    assert_eq!(got, expected);
}

#[test]
fn rfc_calendar_query_res() {
    let response = |href: &str, etag: &str| dav::Response {
        status_or_propstat: dav::StatusOrPropstat::PropStat(
            dav::Href(href.into()),
            vec![dav::PropStat {
                prop: dav::AnyProp(vec![
                    dav::AnyProperty::Value(dav::Property::GetEtag(etag.into())),
                    dav::AnyProperty::Value(dav::Property::Extension(Property::CalendarData(CalendarDataPayload {
                        mime: None,
                        payload: "BEGIN:VCALENDAR".into(),
                    }))),
                ]),
                status: dav::Status(200),
                error: None,
                responsedescription: None,
            }],
        ),
        error: None,
        location: None,
        responsedescription: None,
    };
    let expected = dav::Multistatus::<Calendar> {
        responses: vec![
            response("http://cal.example.com/bernard/work/abcd2.ics", "\"fffff-abcd2\""),
            response("http://cal.example.com/bernard/work/abcd3.ics", "\"fffff-abcd3\""),
        ],
        responsedescription: None,
        extension: None,
    };

    let src = r#"<D:multistatus xmlns:D="DAV:"
              xmlns:C="urn:ietf:params:xml:ns:caldav">
  <D:response>
    <D:href>http://cal.example.com/bernard/work/abcd2.ics</D:href>
       <D:propstat>
         <D:prop>
           <D:getetag>"fffff-abcd2"</D:getetag>
           <C:calendar-data>BEGIN:VCALENDAR</C:calendar-data>
         </D:prop>
         <D:status>HTTP/1.1 200 OK</D:status>
       </D:propstat>
     </D:response>
     <D:response>
       <D:href>http://cal.example.com/bernard/work/abcd3.ics</D:href>
       <D:propstat>
         <D:prop>
           <D:getetag>"fffff-abcd3"</D:getetag>
           <C:calendar-data>BEGIN:VCALENDAR</C:calendar-data>
         </D:prop>
         <D:status>HTTP/1.1 200 OK</D:status>
       </D:propstat>
     </D:response>
   </D:multistatus>
"#;

    let got = deserialize::<dav::Multistatus<Calendar>>(src);
    assert_eq!(got, expected);
}

#[test]
fn rfc_recurring_evt() {
    let expected = CalendarQuery::<Calendar> {
        selector: Some(CalendarSelector::Prop(dav::PropName(vec![dav::PropertyRequest::Extension(
            PropertyRequest::CalendarData(CalendarDataRequest {
                mime: None,
                comp: None,
                recurrence: Some(RecurrenceModifier::LimitRecurrenceSet(LimitRecurrenceSet(
                    utc_ymd(2006, 1, 3),
                    utc_ymd(2006, 1, 5),
                ))),
                limit_freebusy_set: None,
            }),
        )]))),
        filter: Filter(CompFilter {
            name: Component::VCalendar,
            additional_rules: Some(CompFilterRules::Matches(CompFilterMatch {
                prop_filter: vec![],
                comp_filter: vec![CompFilter {
                    name: Component::VEvent,
                    additional_rules: Some(CompFilterRules::Matches(CompFilterMatch {
                        prop_filter: vec![],
                        comp_filter: vec![],
                        time_range: Some(TimeRange::FullRange(utc_ymd(2006, 1, 3), utc_ymd(2006, 1, 5))),
                    })),
                }],
                time_range: None,
            })),
        }),
        timezone: None,
    };

    let src = r#"
  <?xml version="1.0" encoding="utf-8" ?>
   <C:calendar-query xmlns:D="DAV:"
                     xmlns:C="urn:ietf:params:xml:ns:caldav">
     <D:prop>
       <C:calendar-data>
         <C:limit-recurrence-set start="20060103T000000Z"
                                 end="20060105T000000Z"/>
       </C:calendar-data>
     </D:prop>
     <C:filter>
       <C:comp-filter name="VCALENDAR">
         <C:comp-filter name="VEVENT">
           <C:time-range start="20060103T000000Z"
                         end="20060105T000000Z"/>
         </C:comp-filter>
       </C:comp-filter>
     </C:filter>
   </C:calendar-query>"#;

    let got = deserialize::<CalendarQuery<Calendar>>(src);
    assert_eq!(got, expected);
}

#[test]
fn rfc_pending_todos() {
    let expected = CalendarQuery::<Calendar> {
        selector: Some(CalendarSelector::Prop(dav::PropName(vec![
            dav::PropertyRequest::GetEtag,
            dav::PropertyRequest::Extension(PropertyRequest::CalendarData(CalendarDataRequest {
                mime: None,
                comp: None,
                recurrence: None,
                limit_freebusy_set: None,
            })),
        ]))),
        filter: Filter(CompFilter {
            name: Component::VCalendar,
            additional_rules: Some(CompFilterRules::Matches(CompFilterMatch {
                time_range: None,
                prop_filter: vec![],
                comp_filter: vec![CompFilter {
                    name: Component::VTodo,
                    additional_rules: Some(CompFilterRules::Matches(CompFilterMatch {
                        time_range: None,
                        comp_filter: vec![],
                        prop_filter: vec![
                            PropFilter {
                                name: ComponentProperty("COMPLETED".into()),
                                additional_rules: Some(PropFilterRules::IsNotDefined),
                            },
                            PropFilter {
                                name: ComponentProperty("STATUS".into()),
                                additional_rules: Some(PropFilterRules::Match(PropFilterMatch {
                                    param_filter: vec![],
                                    time_or_text: Some(TimeOrText::Text(TextMatch {
                                        collation: None,
                                        negate_condition: Some(true),
                                        text: "CANCELLED".into(),
                                    })),
                                })),
                            },
                        ],
                    })),
                }],
            })),
        }),
        timezone: None,
    };

    let src = r#"<?xml version="1.0" encoding="utf-8" ?>
   <C:calendar-query xmlns:C="urn:ietf:params:xml:ns:caldav">
     <D:prop xmlns:D="DAV:">
       <D:getetag/>
       <C:calendar-data/>
     </D:prop>
     <C:filter>
       <C:comp-filter name="VCALENDAR">
         <C:comp-filter name="VTODO">
           <C:prop-filter name="COMPLETED">
             <C:is-not-defined/>
           </C:prop-filter>
           <C:prop-filter name="STATUS">
             <C:text-match
                negate-condition="yes">CANCELLED</C:text-match>
           </C:prop-filter>
         </C:comp-filter>
       </C:comp-filter>
     </C:filter>
   </C:calendar-query>"#;

    let got = deserialize::<CalendarQuery<Calendar>>(src);
    assert_eq!(got, expected);
}

#[test]
fn caldecoder_supported_filter_in_document_order() {
    let src = r#"<C:supported-filter xmlns:C="urn:ietf:params:xml:ns:caldav"><C:comp-filter name="VEVENT"/><C:comp-filter name="VTODO"/><C:prop-filter name="UID"/></C:supported-filter>"#;
    assert_eq!(
        deserialize::<Violation>(src),
        Violation::SupportedFilter {
            comp: vec![
                CompFilter { name: Component::VEvent, additional_rules: None },
                CompFilter { name: Component::VTodo, additional_rules: None },
            ],
            prop: vec![PropFilter { name: ComponentProperty("UID".into()), additional_rules: None }],
            param: vec![],
        }
    );
}

#[test]
fn caldecoder_calendar_data_request_names() {
    let src = r#"<C:max-instances xmlns:C="urn:ietf:params:xml:ns:caldav"/>"#;
    assert_eq!(deserialize::<PropertyRequest>(src), PropertyRequest::MaxInstances);
    let src = r#"<C:calendar-data xmlns:C="urn:ietf:params:xml:ns:caldav"/>"#;
    assert_eq!(
        deserialize::<PropertyRequest>(src),
        PropertyRequest::CalendarData(CalendarDataRequest { mime: None, comp: None, recurrence: None, limit_freebusy_set: None })
    );
}

#[test]
fn cal_filters_roundtrip() {
    let text = TextMatch { collation: Some(Collation::Unknown("i;unicode-casemap".into())), negate_condition: Some(false), text: "Meeting".into() };
    let filter = Filter(CompFilter {
        name: Component::VCalendar,
        additional_rules: Some(CompFilterRules::Matches(CompFilterMatch {
            time_range: None,
            prop_filter: vec![],
            comp_filter: vec![
                CompFilter {
                    name: Component::VEvent,
                    additional_rules: Some(CompFilterRules::Matches(CompFilterMatch {
                        time_range: Some(TimeRange::OnlyStart(utc_ymd(2006, 1, 4))),
                        prop_filter: vec![
                            PropFilter {
                                name: ComponentProperty("SUMMARY".into()),
                                additional_rules: Some(PropFilterRules::Match(PropFilterMatch {
                                    time_or_text: Some(TimeOrText::Text(text.clone())),
                                    param_filter: vec![
                                        ParamFilter {
                                            name: PropertyParameter("PARTSTAT".into()),
                                            additional_rules: Some(ParamFilterMatch::Match(text.clone())),
                                        },
                                        ParamFilter { name: PropertyParameter("ROLE".into()), additional_rules: Some(ParamFilterMatch::IsNotDefined) },
                                    ],
                                })),
                            },
                            PropFilter { name: ComponentProperty("UID".into()), additional_rules: None },
                        ],
                        comp_filter: vec![CompFilter { name: Component::VAlarm, additional_rules: Some(CompFilterRules::IsNotDefined) }],
                    })),
                },
                CompFilter { name: Component::VTodo, additional_rules: None },
            ],
        })),
    });
    assert_eq!(serialize_deserialize(&filter), filter);

    let v = Violation::SupportedFilter {
        comp: vec![CompFilter { name: Component::VEvent, additional_rules: None }],
        prop: vec![PropFilter { name: ComponentProperty("DTSTART".into()), additional_rules: Some(PropFilterRules::IsNotDefined) }],
        param: vec![ParamFilter { name: PropertyParameter("TZID".into()), additional_rules: None }],
    };
    assert_eq!(serialize_deserialize(&v), v);
}

#[test]
fn cal_calendar_data_request_roundtrip() {
    let req = PropertyRequest::CalendarData(CalendarDataRequest {
        mime: Some(CalendarDataSupport { content_type: "text/calendar".into(), version: "2.0".into() }),
        comp: Some(Comp {
            name: Component::VCalendar,
            prop_kind: Some(PropKind::AllProp),
            comp_kind: Some(CompKind::Comp(vec![
                Comp {
                    name: Component::VEvent,
                    prop_kind: Some(PropKind::Prop(vec![prop("SUMMARY"), CalProp { name: ComponentProperty("DESCRIPTION".into()), novalue: Some(true) }])),
                    comp_kind: Some(CompKind::AllComp),
                },
                Comp { name: Component::VTimeZone, prop_kind: None, comp_kind: None },
            ])),
        }),
        recurrence: Some(RecurrenceModifier::Expand(Expand(utc_ymd(2006, 1, 3), utc_ymd(2006, 1, 5)))),
        limit_freebusy_set: Some(LimitFreebusySet(utc_ymd(2006, 1, 4), utc_ymd(2006, 1, 5))),
    });
    assert_eq!(serialize_deserialize(&req), req);
}

#[test]
fn cal_reports_and_parts() {
    let jan4 = utc_ymd(2006, 1, 4);
    assert_eq!(jan4, UtcTime { secs: 1136332800, nanos: 0 });
    let fb = FreeBusyQuery(TimeRange::FullRange(jan4, utc_ymd(2006, 1, 5)));
    assert_eq!(serialize_deserialize(&fb), fb);
    let tz = TimeZone("BEGIN:VCALENDAR".into());
    assert_eq!(serialize_deserialize(&tz), tz);

    let src = r#"<C:calendar-multiget xmlns:D="DAV:" xmlns:C="urn:ietf:params:xml:ns:caldav">
  <D:prop><D:getetag/></D:prop>
  <D:href>/bernard/work/abcd1.ics</D:href>
  <D:href>/bernard/work/mtg1.ics</D:href>
</C:calendar-multiget>"#;
    assert_eq!(
        deserialize::<ReportType<CalendarReport>>(src),
        ReportType::Multiget(CalendarMultiget {
            selector: Some(CalendarSelector::Prop(dav::PropName(vec![dav::PropertyRequest::GetEtag]))),
            href: vec![dav::Href("/bernard/work/abcd1.ics".into()), dav::Href("/bernard/work/mtg1.ics".into())],
        })
    );
    let src = r#"<C:free-busy-query xmlns:C="urn:ietf:params:xml:ns:caldav"><C:time-range start="20060104T000000Z"/></C:free-busy-query>"#;
    assert_eq!(deserialize::<ReportType<CalendarReport>>(src), ReportType::FreeBusy(FreeBusyQuery(TimeRange::OnlyStart(jan4))));

    let src = r#"<C:calendar-query xmlns:C="urn:ietf:params:xml:ns:caldav"><C:timezone>X</C:timezone></C:calendar-query>"#;
    assert_eq!(try_deserialize::<CalendarQuery<CalendarReport>>(src), Err(ParsingError::MissingChild));

    let src = r#"<C:mkcalendar-response xmlns:D="DAV:" xmlns:C="urn:ietf:params:xml:ns:caldav">
  <D:propstat><D:prop><D:displayname/></D:prop><D:status>HTTP/1.1 200 OK</D:status></D:propstat>
</C:mkcalendar-response>"#;
    let got = deserialize::<MkCalendarResponse<Calendar>>(src);
    assert_eq!(got.0.len(), 1);
    assert_eq!(got.0[0].status, dav::Status(200));

    let set = Property::SupportedCollationSet(vec![
        SupportedCollation(Collation::AsciiCaseMap),
        SupportedCollation(Collation::Octet),
        SupportedCollation(Collation::Unknown("i;unicode-casemap".into())),
    ]);
    assert_eq!(serialize_deserialize(&set), set);
}

#[test]
fn cal_text_match_and_param_filter_roundtrip() {
    let matches = vec![
        TextMatch { collation: None, negate_condition: None, text: "".into() },
        TextMatch { collation: Some(Collation::Octet), negate_condition: Some(true), text: "NEEDS-ACTION".into() },
        TextMatch { collation: Some(Collation::AsciiCaseMap), negate_condition: None, text: "mailto:lisa".into() },
    ];
    for t in matches {
        assert_eq!(serialize_deserialize(&t), t);
        let p = ParamFilter { name: PropertyParameter("PARTSTAT".into()), additional_rules: Some(ParamFilterMatch::Match(t)) };
        assert_eq!(serialize_deserialize(&p), p);
    }
    let p = ParamFilter { name: PropertyParameter("X-PARAM".into()), additional_rules: Some(ParamFilterMatch::IsNotDefined) };
    assert_eq!(serialize_deserialize(&p), p);
}

#[test]
fn cal_unknown_collation_with_a_known_name_reads_as_the_known_one() {
    let t = TextMatch { collation: Some(Collation::Unknown("i;octet".into())), negate_condition: None, text: "x".into() };
    let back = serialize_deserialize(&t);
    assert_eq!(back.collation, Some(Collation::Octet));
    assert_eq!(back.text, "x");
}

#[test]
fn cal_collation_set_roundtrip() {
    let p = Property::SupportedCollationSet(vec![
        SupportedCollation(Collation::AsciiCaseMap),
        SupportedCollation(Collation::Octet),
        SupportedCollation(Collation::Unknown("i;unicode-casemap".into())),
    ]);
    assert_eq!(serialize_deserialize(&p), p);
    assert_eq!(serialize_deserialize(&Property::SupportedCollationSet(vec![])), Property::SupportedCollationSet(vec![]));
}
