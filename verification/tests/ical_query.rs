use aerogramme_core::dav::caltypes::{
    CalProp, Collation, Comp, CompFilter, CompFilterMatch, CompFilterRules, CompKind, Component, ComponentProperty,
    ParamFilter, ParamFilterMatch, PropFilter, PropFilterMatch, PropFilterRules, PropKind, PropertyParameter,
    TextMatch, TimeOrText, TimeRange, UtcTime,
};
use aerogramme_core::ical::collation::{contains_subslice, normalize};
use aerogramme_core::ical::model::{IcalComponent, IcalParam, IcalProperty};
use aerogramme_core::ical::prune::component;
use aerogramme_core::ical::query::{component_match_checked, is_component_match, MAX_UTC_SECS, MIN_UTC_SECS};

fn prop(name: &str, val: &str) -> IcalProperty {
    IcalProperty { name: name.to_string(), val: val.to_string(), params: vec![] }
}

fn prop_with(name: &str, val: &str, params: Vec<(&str, &str)>) -> IcalProperty {
    IcalProperty {
        name: name.to_string(),
        val: val.to_string(),
        params: params
            .into_iter()
            .map(|(k, v)| IcalParam { key: k.to_string(), val: Some(v.to_string()) })
            .collect(),
    }
}

fn comp(name: &str, properties: Vec<IcalProperty>, components: Vec<IcalComponent>) -> IcalComponent {
    IcalComponent { name: name.to_string(), properties, components }
}

fn utc(secs: i64) -> UtcTime {
    UtcTime { secs, nanos: 0 }
}

// 2006-01-04T00:00:00Z and 2006-01-05T00:00:00Z
const JAN4: i64 = 1136332800;
const JAN5: i64 = 1136419200;

fn event(dtstart: &str, dtend: Option<&str>) -> IcalComponent {
    let mut props = vec![prop("UID", "ev1"), prop("SUMMARY", "Team Meeting"), prop("DTSTART", dtstart)];
    if let Some(e) = dtend {
        props.push(prop("DTEND", e));
    }
    comp("VEVENT", props, vec![])
}

fn calendar(inner: Vec<IcalComponent>) -> IcalComponent {
    comp("VCALENDAR", vec![prop("VERSION", "2.0")], inner)
}

fn event_filter_in(range: TimeRange) -> CompFilter {
    CompFilter {
        name: Component::VCalendar,
        additional_rules: Some(CompFilterRules::Matches(CompFilterMatch {
            time_range: None,
            prop_filter: vec![],
            comp_filter: vec![CompFilter {
                name: Component::VEvent,
                additional_rules: Some(CompFilterRules::Matches(CompFilterMatch {
                    time_range: Some(range),
                    prop_filter: vec![],
                    comp_filter: vec![],
                })),
            }],
        })),
    }
}

#[test]
fn time_range_limits_are_those_of_chrono() {
    assert_eq!(chrono::DateTime::<chrono::Utc>::MIN_UTC.timestamp(), MIN_UTC_SECS);
    assert_eq!(chrono::DateTime::<chrono::Utc>::MAX_UTC.timestamp(), MAX_UTC_SECS);
}

#[test]
fn component_filter_on_presence() {
    let cal = calendar(vec![event("20060104T140000Z", None)]);
    let root = vec![cal];
    let parent = comp("ROOT", vec![], vec![]);
    let present = CompFilter { name: Component::VCalendar, additional_rules: None };
    assert!(is_component_match(&parent, &root, &present));
    let absent = CompFilter { name: Component::VTodo, additional_rules: None };
    assert!(!is_component_match(&parent, &root, &absent));
    let not_defined = CompFilter { name: Component::VTodo, additional_rules: Some(CompFilterRules::IsNotDefined) };
    assert!(is_component_match(&parent, &root, &not_defined));
    let defined = CompFilter { name: Component::VCalendar, additional_rules: Some(CompFilterRules::IsNotDefined) };
    assert!(!is_component_match(&parent, &root, &defined));
}

#[test]
fn event_time_range_with_dtend() {
    let cal = calendar(vec![event("20060104T140000Z", Some("20060104T150000Z"))]);
    let root = vec![cal];
    let parent = comp("ROOT", vec![], vec![]);
    let inside = event_filter_in(TimeRange::FullRange(utc(JAN4), utc(JAN5)));
    assert!(is_component_match(&parent, &root, &inside));
    let after = event_filter_in(TimeRange::OnlyStart(utc(JAN5)));
    assert!(!is_component_match(&parent, &root, &after));
    let before = event_filter_in(TimeRange::OnlyEnd(utc(JAN4)));
    assert!(!is_component_match(&parent, &root, &before));
}

#[test]
fn event_time_range_without_end() {
    // start <= DTSTART AND end > DTSTART
    let cal = calendar(vec![event("20060104T000000Z", None)]);
    let root = vec![cal];
    let parent = comp("ROOT", vec![], vec![]);
    assert!(is_component_match(&parent, &root, &event_filter_in(TimeRange::FullRange(utc(JAN4), utc(JAN5)))));
    assert!(!is_component_match(&parent, &root, &event_filter_in(TimeRange::FullRange(utc(JAN4 - 10), utc(JAN4)))));
}

#[test]
fn event_time_range_with_duration() {
    let ev = comp("VEVENT", vec![prop("DTSTART", "20060104T000000Z"), prop("DURATION", "3600")], vec![]);
    let root = vec![calendar(vec![ev])];
    let parent = comp("ROOT", vec![], vec![]);
    // start < DTSTART+DURATION AND end > DTSTART
    assert!(is_component_match(&parent, &root, &event_filter_in(TimeRange::OnlyStart(utc(JAN4 + 3599)))));
    assert!(!is_component_match(&parent, &root, &event_filter_in(TimeRange::OnlyStart(utc(JAN4 + 3600)))));
    // A range that starts exactly when the event ends does not overlap it.
    assert!(!is_component_match(
        &parent,
        &root,
        &event_filter_in(TimeRange::FullRange(utc(JAN4 + 3600), utc(JAN4 + 7200)))
    ));
}

#[test]
fn event_without_dtstart_fails_the_range() {
    let ev = comp("VEVENT", vec![prop("UID", "x")], vec![]);
    let root = vec![calendar(vec![ev])];
    let parent = comp("ROOT", vec![], vec![]);
    assert!(!is_component_match(&parent, &root, &event_filter_in(TimeRange::OnlyStart(utc(0)))));
}

fn single(name: Component, rules: CompFilterMatch) -> CompFilter {
    CompFilter { name, additional_rules: Some(CompFilterRules::Matches(rules)) }
}

fn in_calendar(inner: CompFilter) -> CompFilter {
    single(
        Component::VCalendar,
        CompFilterMatch { time_range: None, prop_filter: vec![], comp_filter: vec![inner] },
    )
}

#[test]
fn todo_time_ranges() {
    let parent = comp("ROOT", vec![], vec![]);
    let range = |r: TimeRange| {
        in_calendar(single(Component::VTodo, CompFilterMatch { time_range: Some(r), prop_filter: vec![], comp_filter: vec![] }))
    };
    // Only DUE: start < DUE AND end >= DUE
    let due = vec![calendar(vec![comp("VTODO", vec![prop("DUE", "20060104T000000Z")], vec![])])];
    assert!(is_component_match(&parent, &due, &range(TimeRange::FullRange(utc(JAN4 - 1), utc(JAN4)))));
    assert!(!is_component_match(&parent, &due, &range(TimeRange::FullRange(utc(JAN4), utc(JAN5)))));
    // Nothing at all: always true.
    let bare = vec![calendar(vec![comp("VTODO", vec![prop("SUMMARY", "x")], vec![])])];
    assert!(is_component_match(&parent, &bare, &range(TimeRange::FullRange(utc(0), utc(1)))));
    // Only CREATED: end > CREATED
    let created = vec![calendar(vec![comp("VTODO", vec![prop("CREATED", "20060104T000000Z")], vec![])])];
    assert!(is_component_match(&parent, &created, &range(TimeRange::OnlyEnd(utc(JAN4 + 1)))));
    assert!(!is_component_match(&parent, &created, &range(TimeRange::OnlyEnd(utc(JAN4)))));
}

#[test]
fn journal_and_freebusy_ranges() {
    let parent = comp("ROOT", vec![], vec![]);
    let journal = vec![calendar(vec![comp("VJOURNAL", vec![prop("DTSTART", "20060104T000000Z")], vec![])])];
    let f = in_calendar(single(
        Component::VJournal,
        CompFilterMatch { time_range: Some(TimeRange::FullRange(utc(JAN4), utc(JAN5))), prop_filter: vec![], comp_filter: vec![] },
    ));
    assert!(is_component_match(&parent, &journal, &f));
    let fb = vec![calendar(vec![comp("VFREEBUSY", vec![prop("DTSTART", "20060104T000000Z")], vec![])])];
    let g = in_calendar(single(
        Component::VFreeBusy,
        CompFilterMatch { time_range: Some(TimeRange::FullRange(utc(JAN4), utc(JAN5))), prop_filter: vec![], comp_filter: vec![] },
    ));
    assert!(!is_component_match(&parent, &fb, &g));
}

#[test]
fn alarm_relative_trigger() {
    // An alarm 15 minutes before the start of its event.
    let alarm = comp("VALARM", vec![prop("ACTION", "DISPLAY"), prop("TRIGGER", "-PT15M")], vec![]);
    let ev = comp("VEVENT", vec![prop("DTSTART", "20060104T010000Z")], vec![alarm]);
    let cal = calendar(vec![ev]);
    let root = vec![cal];
    let parent = comp("ROOT", vec![], vec![]);
    let alarm_in = |r: TimeRange| {
        in_calendar(single(
            Component::VEvent,
            CompFilterMatch {
                time_range: None,
                prop_filter: vec![],
                comp_filter: vec![single(
                    Component::VAlarm,
                    CompFilterMatch { time_range: Some(r), prop_filter: vec![], comp_filter: vec![] },
                )],
            },
        ))
    };
    let trigger = JAN4 + 3600 - 900;
    assert!(is_component_match(&parent, &root, &alarm_in(TimeRange::FullRange(utc(trigger), utc(trigger + 1)))));
    assert!(!is_component_match(&parent, &root, &alarm_in(TimeRange::FullRange(utc(trigger + 1), utc(trigger + 2)))));
}

#[test]
fn alarm_trigger_typed_as_duration() {
    // VALUE=DURATION keeps the trigger relative to DTSTART: 09:45 here.
    let alarm = comp("VALARM", vec![prop_with("TRIGGER", "-PT15M", vec![("VALUE", "DURATION")])], vec![]);
    let ev = comp("VEVENT", vec![prop("DTSTART", "20060104T100000Z")], vec![alarm]);
    let root = vec![calendar(vec![ev])];
    let parent = comp("ROOT", vec![], vec![]);
    let alarm_in = |r: TimeRange| {
        in_calendar(single(
            Component::VEvent,
            CompFilterMatch {
                time_range: None,
                prop_filter: vec![],
                comp_filter: vec![single(
                    Component::VAlarm,
                    CompFilterMatch { time_range: Some(r), prop_filter: vec![], comp_filter: vec![] },
                )],
            },
        ))
    };
    let trigger = JAN4 + 10 * 3600 - 900;
    assert!(is_component_match(&parent, &root, &alarm_in(TimeRange::FullRange(utc(trigger), utc(trigger + 1)))));
    assert!(!is_component_match(&parent, &root, &alarm_in(TimeRange::FullRange(utc(trigger + 1), utc(trigger + 2)))));
}

#[test]
fn alarm_absolute_trigger() {
    let alarm = comp(
        "VALARM",
        vec![prop_with("TRIGGER", "20060104T000000Z", vec![("VALUE", "DATE-TIME")])],
        vec![],
    );
    let ev = comp("VEVENT", vec![prop("DTSTART", "20060105T000000Z")], vec![alarm]);
    let root = vec![calendar(vec![ev])];
    let parent = comp("ROOT", vec![], vec![]);
    let f = in_calendar(single(
        Component::VEvent,
        CompFilterMatch {
            time_range: None,
            prop_filter: vec![],
            comp_filter: vec![single(
                Component::VAlarm,
                CompFilterMatch { time_range: Some(TimeRange::FullRange(utc(JAN4), utc(JAN4 + 1))), prop_filter: vec![], comp_filter: vec![] },
            )],
        },
    ));
    assert!(is_component_match(&parent, &root, &f));
}

#[test]
fn alarm_trigger_out_of_range_is_reported() {
    // The trigger moves the start past the last representable time.
    let alarm = comp("VALARM", vec![prop("TRIGGER", "P99999999999D")], vec![]);
    let ev = comp("VEVENT", vec![prop("DTSTART", "20060104T000000Z")], vec![alarm]);
    let root = vec![calendar(vec![ev])];
    let parent = comp("ROOT", vec![], vec![]);
    let f = in_calendar(single(
        Component::VEvent,
        CompFilterMatch {
            time_range: None,
            prop_filter: vec![],
            comp_filter: vec![single(
                Component::VAlarm,
                CompFilterMatch { time_range: Some(TimeRange::OnlyStart(utc(0))), prop_filter: vec![], comp_filter: vec![] },
            )],
        },
    ));
    assert_eq!(component_match_checked(&parent, &root, &f), None);
}

fn text(t: &str, negate: Option<bool>) -> TextMatch {
    TextMatch { collation: None, negate_condition: negate, text: t.to_string() }
}

fn prop_filter(name: &str, rules: Option<PropFilterRules>) -> PropFilter {
    PropFilter { name: ComponentProperty(name.to_string()), additional_rules: rules }
}

fn events_with(prop_filters: Vec<PropFilter>) -> CompFilter {
    in_calendar(single(Component::VEvent, CompFilterMatch { time_range: None, prop_filter: prop_filters, comp_filter: vec![] }))
}

#[test]
fn property_text_match() {
    let root = vec![calendar(vec![event("20060104T140000Z", None)])];
    let parent = comp("ROOT", vec![], vec![]);
    let m = |t: &str, neg: Option<bool>| {
        events_with(vec![prop_filter(
            "SUMMARY",
            Some(PropFilterRules::Match(PropFilterMatch { time_or_text: Some(TimeOrText::Text(text(t, neg))), param_filter: vec![] })),
        )])
    };
    assert!(is_component_match(&parent, &root, &m("Meeting", None)));
    assert!(!is_component_match(&parent, &root, &m("meeting", Some(false))));
    assert!(is_component_match(&parent, &root, &m("Lunch", Some(true))));
    assert!(!is_component_match(&parent, &root, &m("Team", Some(true))));
}

#[test]
fn property_presence_rules() {
    let root = vec![calendar(vec![event("20060104T140000Z", None)])];
    let parent = comp("ROOT", vec![], vec![]);
    assert!(is_component_match(&parent, &root, &events_with(vec![prop_filter("UID", None)])));
    assert!(!is_component_match(&parent, &root, &events_with(vec![prop_filter("LOCATION", None)])));
    assert!(is_component_match(
        &parent,
        &root,
        &events_with(vec![prop_filter("LOCATION", Some(PropFilterRules::IsNotDefined))])
    ));
    assert!(!is_component_match(&parent, &root, &events_with(vec![prop_filter("UID", Some(PropFilterRules::IsNotDefined))])));
}

#[test]
fn property_time_match() {
    let root = vec![calendar(vec![event("20060104T140000Z", None)])];
    let parent = comp("ROOT", vec![], vec![]);
    let m = |r: TimeRange| {
        events_with(vec![prop_filter(
            "DTSTART",
            Some(PropFilterRules::Match(PropFilterMatch { time_or_text: Some(TimeOrText::Time(r)), param_filter: vec![] })),
        )])
    };
    assert!(is_component_match(&parent, &root, &m(TimeRange::FullRange(utc(JAN4), utc(JAN5)))));
    assert!(is_component_match(&parent, &root, &m(TimeRange::OnlyEnd(utc(JAN4 + 14 * 3600)))));
    assert!(!is_component_match(&parent, &root, &m(TimeRange::OnlyStart(utc(JAN5)))));
    // A value that is no date never matches a time range.
    let m2 = events_with(vec![prop_filter(
        "SUMMARY",
        Some(PropFilterRules::Match(PropFilterMatch {
            time_or_text: Some(TimeOrText::Time(TimeRange::OnlyStart(utc(0)))),
            param_filter: vec![],
        })),
    )]);
    assert!(!is_component_match(&parent, &root, &m2));
}

#[test]
fn parameter_filters() {
    let ev = comp(
        "VEVENT",
        vec![prop_with("ATTENDEE", "mailto:lisa@example.com", vec![("PARTSTAT", "NEEDS-ACTION")])],
        vec![],
    );
    let root = vec![calendar(vec![ev])];
    let parent = comp("ROOT", vec![], vec![]);
    let with_param = |pf: ParamFilter| {
        events_with(vec![prop_filter(
            "ATTENDEE",
            Some(PropFilterRules::Match(PropFilterMatch { time_or_text: None, param_filter: vec![pf] })),
        )])
    };
    let name = |n: &str| PropertyParameter(n.to_string());
    assert!(is_component_match(&parent, &root, &with_param(ParamFilter { name: name("PARTSTAT"), additional_rules: None })));
    assert!(!is_component_match(&parent, &root, &with_param(ParamFilter { name: name("ROLE"), additional_rules: None })));
    assert!(is_component_match(
        &parent,
        &root,
        &with_param(ParamFilter { name: name("ROLE"), additional_rules: Some(ParamFilterMatch::IsNotDefined) })
    ));
    assert!(is_component_match(
        &parent,
        &root,
        &with_param(ParamFilter {
            name: name("PARTSTAT"),
            additional_rules: Some(ParamFilterMatch::Match(text("NEEDS", None)))
        })
    ));
    assert!(!is_component_match(
        &parent,
        &root,
        &with_param(ParamFilter {
            name: name("PARTSTAT"),
            additional_rules: Some(ParamFilterMatch::Match(text("NEEDS", Some(true))))
        })
    ));
}

#[test]
fn prune_keeps_requested_properties() {
    let ev = event("20060104T140000Z", Some("20060104T150000Z"));
    let cal = calendar(vec![ev, comp("VTODO", vec![prop("UID", "t")], vec![])]);
    let request = Comp {
        name: Component::VCalendar,
        prop_kind: Some(PropKind::AllProp),
        comp_kind: Some(CompKind::Comp(vec![Comp {
            name: Component::VEvent,
            prop_kind: Some(PropKind::Prop(vec![
                CalProp { name: ComponentProperty("UID".into()), novalue: None },
                CalProp { name: ComponentProperty("SUMMARY".into()), novalue: Some(true) },
            ])),
            comp_kind: None,
        }])),
    };
    let out = component(&cal, &request).unwrap();
    assert_eq!(out.name, "VCALENDAR");
    assert_eq!(out.properties.len(), 1);
    assert_eq!(out.components.len(), 1);
    let ev = &out.components[0];
    assert_eq!(ev.name, "VEVENT");
    let names: Vec<&str> = ev.properties.iter().map(|p| p.name.as_str()).collect();
    assert_eq!(names, vec!["UID", "SUMMARY"]);
    assert_eq!(ev.properties[0].val, "ev1");
    assert_eq!(ev.properties[1].val, "");
}

#[test]
fn prune_refuses_another_component() {
    let cal = calendar(vec![]);
    let request = Comp { name: Component::VEvent, prop_kind: None, comp_kind: None };
    assert!(component(&cal, &request).is_none());
}

#[test]
fn prune_with_nothing_requested_keeps_everything() {
    let cal = calendar(vec![event("20060104T140000Z", None)]);
    let request = Comp { name: Component::VCalendar, prop_kind: None, comp_kind: None };
    let out = component(&cal, &request).unwrap();
    assert_eq!(out.properties.len(), cal.properties.len());
    assert_eq!(out.components.len(), 1);
    assert_eq!(out.components[0].properties.len(), 3);
}

#[test]
fn collation_normalize() {
    assert_eq!(normalize(Collation::AsciiCaseMap, "Hello, wörld"), "HELLO, WöRLD".as_bytes().to_vec());
    assert_eq!(normalize(Collation::Octet, "Hello"), b"Hello".to_vec());
}

#[test]
fn collation_contains_subslice() {
    assert!(contains_subslice(b"team meeting", b"meet"));
    assert!(contains_subslice(b"meet", b"meet"));
    assert!(!contains_subslice(b"mee", b"meet"));
    assert!(!contains_subslice(b"team", b"x"));
}
