use aerogramme_core::dav::cardtypes::{
    AddressDataPayload, AddressDataRequest, AddressbookMultiget, AddressbookQuery, AddressbookSelector, CardProp,
    Collation, ContentType, Filter, FilterTest, Limit, PropFilter, PropFilterRules, PropKind, Property, PropertyName,
    PropertyRequest, SupportedCollation, TextMatch, TextMatchType, Version, Violation,
};
use aerogramme_core::dav::realization::Addressbook;
use aerogramme_core::dav::types as dav;
use aerogramme_core::dav::cardtypes::{
    AddressDataType, NegateCondition, NoValue, ParamFilter, ParamFilterMatch, PropertyParameterName,
    ReportTypeName, ResourceType,
};
use aerogramme_core::dav::xml::{QRead, QWrite, Reader, WEvent, WithDefault, Writer, XmlEvent, XmlName, XmlTag};
use quick_xml::events::{BytesEnd, BytesStart, BytesText, Event};
use quick_xml::name::ResolveResult;

/// The events an XML reader gives for a document.
fn events_of(src: &str) -> Vec<XmlEvent> {
    let mut rdr = quick_xml::NsReader::from_reader(src.as_bytes());
    let mut buf = Vec::new();
    let mut out = Vec::new();
    loop {
        let ev = match rdr.read_event_into(&mut buf) {
            Err(_) => {
                out.push(XmlEvent::Fail);
                break;
            }
            Ok(e) => e.into_owned(),
        };
        let name_of = |rdr: &quick_xml::NsReader<&[u8]>, q: quick_xml::name::QName| {
            let (ns, local) = rdr.resolve_element(q);
            XmlName {
                qname: String::from_utf8_lossy(q.as_ref()).into_owned(),
                ns: match ns {
                    ResolveResult::Bound(n) => Some(String::from_utf8_lossy(n.as_ref()).into_owned()),
                    _ => None,
                },
                local: String::from_utf8_lossy(local.as_ref()).into_owned(),
            }
        };
        let tag_of = |rdr: &quick_xml::NsReader<&[u8]>, b: &BytesStart| {
            let mut attrs = Vec::new();
            for a in b.attributes() {
                match a {
                    Ok(a) => attrs.push((
                        String::from_utf8_lossy(a.key.as_ref()).into_owned(),
                        a.decode_and_unescape_value(rdr).ok().map(|v| v.into_owned()),
                    )),
                    Err(_) => break,
                }
            }
            XmlTag { name: name_of(rdr, b.name()), attrs }
        };
        match ev {
            Event::Start(b) => out.push(XmlEvent::Start(tag_of(&rdr, &b))),
            Event::Empty(b) => out.push(XmlEvent::Empty(tag_of(&rdr, &b))),
            Event::End(b) => out.push(XmlEvent::End(name_of(&rdr, b.name()))),
            Event::Text(t) => out.push(XmlEvent::Text(t.unescape().ok().map(|v| v.into_owned()))),
            Event::CData(c) => out.push(XmlEvent::CData(String::from_utf8(c.into_inner().into_owned()).ok())),
            Event::Eof => {
                out.push(XmlEvent::Eof);
                break;
            }
            _ => out.push(XmlEvent::Other),
        }
        buf.clear();
    }
    out
}

fn deserialize<T: QRead>(src: &str) -> T {
    let mut rdr = Reader::new(events_of(src)).unwrap();
    rdr.find().unwrap()
}

/// The text of written events, indented by four spaces.
fn to_text(events: &[WEvent]) -> String {
    let mut w = quick_xml::Writer::new_with_indent(Vec::new(), b' ', 4);
    for e in events {
        let ev = match e {
            WEvent::Start(s) | WEvent::Empty(s) => {
                let mut b = BytesStart::new(s.qname.as_str());
                for (k, v) in s.attrs.iter() {
                    b.push_attribute((k.as_str(), v.as_str()));
                }
                if matches!(e, WEvent::Start(_)) {
                    Event::Start(b)
                } else {
                    Event::Empty(b)
                }
            }
            WEvent::End(q) => Event::End(BytesEnd::new(q.as_str())),
            WEvent::Text(t) => Event::Text(BytesText::new(t.as_str())),
        };
        w.write_event(ev).unwrap();
    }
    String::from_utf8(w.into_inner()).unwrap()
}

fn serialize<T: QWrite>(v: &T) -> String {
    let ns = vec![
        ("xmlns:D".to_string(), "DAV:".to_string()),
        ("xmlns:C".to_string(), "urn:ietf:params:xml:ns:carddav".to_string()),
    ];
    let mut writer = Writer::new(ns);
    v.qwrite(&mut writer);
    to_text(&writer.events)
}

fn serialize_deserialize<T: QRead + QWrite>(src: &T) -> T {
    deserialize(&serialize(src))
}

#[test]
fn cardencoder_rfc_principal_address() {
    let got = Property::PrincipalAddress(dav::Href("/system/cyrus.vcf".to_string()));

    let expected = r#"<C:principal-address xmlns:D="DAV:" xmlns:C="urn:ietf:params:xml:ns:carddav">
    <D:href>/system/cyrus.vcf</D:href>
</C:principal-address>"#;

    let ser = serialize(&got);

    assert_eq!(ser, expected)
}

#[test]
fn cardencoder_rfc_supported_collation_set() {
    let got = Property::SupportedCollationSet(vec![
        SupportedCollation(Collation::AsciiCaseMap),
        SupportedCollation(Collation::Unknown("i;octet".to_string())),
        SupportedCollation(Collation::UnicodeCaseMap),
    ]);

    let expected = r#"<C:supported-collation-set xmlns:D="DAV:" xmlns:C="urn:ietf:params:xml:ns:carddav">
    <C:supported-collation>i;ascii-casemap</C:supported-collation>
    <C:supported-collation>i;octet</C:supported-collation>
    <C:supported-collation>i;unicode-casemap</C:supported-collation>
</C:supported-collation-set>"#;

    let ser = serialize(&got);

    assert_eq!(ser, expected)
}

#[test]
fn card_filter_roundtrip() {
    let filter = Filter {
        prop_filters: vec![
            PropFilter {
                name: PropertyName { group: Some("item1".into()), name: "TEL".into() },
                test: WithDefault::new(FilterTest::AllOf),
                rules: PropFilterRules::Match {
                    text_match: vec![TextMatch {
                        collation: WithDefault::new(Collation::AsciiCaseMap),
                        match_type: WithDefault::new(TextMatchType::StartsWith),
                        negate_condition: WithDefault::new(NegateCondition::Yes),
                        text: "+33".to_string(),
                    }],
                    param_filter: vec![
                        ParamFilter {
                            name: PropertyParameterName("TYPE".into()),
                            rules: Some(ParamFilterMatch::IsNotDefined),
                        },
                        ParamFilter { name: PropertyParameterName("PREF".into()), rules: None },
                    ],
                },
            },
            PropFilter {
                name: PropertyName { group: None, name: "NICKNAME".into() },
                test: WithDefault::default(),
                rules: PropFilterRules::IsNotDefined,
            },
        ],
        test: WithDefault::new(FilterTest::AnyOf),
    };
    assert_eq!(serialize_deserialize(&filter), filter);
}

#[test]
fn card_property_roundtrip() {
    let props = vec![
        Property::AddressbookDescription { lang: Some("fr".into()), text: "Carnet".into() },
        Property::SupportedAddressData(vec![AddressDataType {
            content_type: WithDefault::new(ContentType("text/vcard".into())),
            version: WithDefault::new(Version("4.0".into())),
        }]),
        Property::MaxResourceSize(102400),
        Property::AddressbookHomeSet(dav::Href("/home/".into())),
        Property::AddressData(AddressDataPayload {
            payload: "BEGIN:VCARD".into(),
            content_type: WithDefault::default(),
            version: WithDefault::default(),
        }),
    ];
    for p in props {
        assert_eq!(serialize_deserialize(&p), p);
    }
}

#[test]
fn card_property_request_and_violation_roundtrip() {
    let reqs = vec![
        PropertyRequest::AddressbookDescription,
        PropertyRequest::SupportedCollationSet,
        PropertyRequest::AddressData(AddressDataRequest {
            prop_kind: Some(PropKind::Prop(vec![CardProp {
                name: PropertyName { group: None, name: "FN".into() },
                novalue: WithDefault::new(NoValue::No),
            }])),
            content_type: WithDefault::default(),
            version: WithDefault::new(Version("3.0".into())),
        }),
    ];
    for r in reqs {
        assert_eq!(serialize_deserialize(&r), r);
    }
    let vs = vec![
        Violation::ValidAddressData,
        Violation::NoUidConflict(dav::Href("/a.vcf".into())),
        Violation::SupportedCollation,
        Violation::NumberOfMatchesWithinLimits,
    ];
    for v in vs {
        assert_eq!(serialize_deserialize(&v), v);
    }
    assert_eq!(serialize_deserialize(&ResourceType::Addressbook), ResourceType::Addressbook);
    assert_eq!(serialize_deserialize(&ReportTypeName::Query), ReportTypeName::Query);
    assert_eq!(serialize_deserialize(&Limit { nresults: 7 }), Limit { nresults: 7 });
}

#[test]
fn card_limit_trims_its_count() {
    let src = r#"<C:limit xmlns:C="urn:ietf:params:xml:ns:carddav"><C:nresults>  12
</C:nresults></C:limit>"#;
    assert_eq!(deserialize::<Limit>(src), Limit { nresults: 12 });
    let src = r#"<C:limit xmlns:C="urn:ietf:params:xml:ns:carddav"><C:nresults>x</C:nresults></C:limit>"#;
    let mut rdr = Reader::new(events_of(src)).unwrap();
    assert_eq!(rdr.find::<Limit>(), Err(aerogramme_core::dav::error::ParsingError::InvalidValue));
}

    #[test]
    fn carddecoder_rfc_principal_address() {
        let expected = Property::PrincipalAddress(dav::Href("/system/cyrus.vcf".to_string()));

        let src = r#"
       <C:principal-address xmlns:D="DAV:"
          xmlns:C="urn:ietf:params:xml:ns:carddav">
          <D:href>/system/cyrus.vcf</D:href>
       </C:principal-address>
"#;
        
        let got = deserialize::<Property>(src);

        assert_eq!(got, expected)
    }

    #[test]
    fn carddecoder_rfc_supported_collation_set() {
        let expected = Property::SupportedCollationSet(vec![
            SupportedCollation(Collation::AsciiCaseMap),
            SupportedCollation(Collation::Unknown("i;octet".to_string())),
            SupportedCollation(Collation::UnicodeCaseMap),
        ]);

        let src = r#"
      <C:supported-collation-set
        xmlns:C="urn:ietf:params:xml:ns:carddav">
        <C:supported-collation>i;ascii-casemap</C:supported-collation>
        <C:supported-collation>i;octet</C:supported-collation>
        <C:supported-collation>i;unicode-casemap</C:supported-collation>
      </C:supported-collation-set>
"#;
        
        let got = deserialize::<Property>(src);

        assert_eq!(got, expected)
    }

    // §8.6.3, query
    #[test]
    fn carddecoder_rfc_addressbook_query_8_6_3() {
        let expected = AddressbookQuery {
            selector: Some(AddressbookSelector::Prop(dav::PropName(vec![
                dav::PropertyRequest::GetEtag,
                dav::PropertyRequest::Extension(PropertyRequest::AddressData(
                    AddressDataRequest {
                        content_type: Default::default(),
                        version: Default::default(),
                        prop_kind: Some(PropKind::Prop(vec![
                            CardProp {
                                name: PropertyName { group: None, name: "VERSION".into() },
                                novalue: Default::default(),
                            },
                            CardProp {
                                name: PropertyName { group: None, name: "UID".into() },
                                novalue: Default::default(),
                            },
                            CardProp {
                                name: PropertyName { group: None, name: "NICKNAME".into() },
                                novalue: Default::default(),
                            },
                            CardProp {
                                name: PropertyName{ group: None, name: "EMAIL".into() },
                                novalue: Default::default(),
                            },
                            CardProp {
                                name: PropertyName{ group: None, name: "FN".into() },
                                novalue: Default::default(),
                            },
                        ])),
                    }
                )),
            ]))),
            filter: Filter {
                prop_filters: vec![PropFilter {
                    name: PropertyName { group: None, name: "NICKNAME".to_string() },
                    test: Default::default(),
                    rules: PropFilterRules::Match {
                        text_match: vec![TextMatch {
                            collation: WithDefault::new(Collation::UnicodeCaseMap),
                            match_type: WithDefault::new(TextMatchType::Equals),
                            negate_condition: WithDefault::default(),
                            text: "me".to_string(),
                        }],
                        param_filter: vec![],
                    },
                }],
                test: Default::default(),
            },
            limit: None,
        };

        let src = r#"
   <?xml version="1.0" encoding="utf-8" ?>
   <C:addressbook-query xmlns:D="DAV:"
                     xmlns:C="urn:ietf:params:xml:ns:carddav">
     <D:prop>
       <D:getetag/>
       <C:address-data>
         <C:prop name="VERSION"/>
         <C:prop name="UID"/>
         <C:prop name="NICKNAME"/>
         <C:prop name="EMAIL"/>
         <C:prop name="FN"/>
       </C:address-data>
     </D:prop>
     <C:filter>
       <C:prop-filter name="NICKNAME">
         <C:text-match collation="i;unicode-casemap"
                       match-type="equals"
         >me</C:text-match>
       </C:prop-filter>
     </C:filter>
   </C:addressbook-query>
"#;
        
        let got = deserialize::<AddressbookQuery<Addressbook>>(src);

        assert_eq!(got, expected)
    }

    // §8.6.3, response
    #[test]
    fn carddecoder_rfc_addressbook_query_res_8_6_3() {
        let expected = dav::Multistatus::<Addressbook> {
            extension: None,
            responses: vec![
                dav::Response {
                    status_or_propstat: dav::StatusOrPropstat::PropStat(
                        dav::Href("/home/bernard/addressbook/v102.vcf".into()),
                        vec![dav::PropStat {
                            prop: dav::AnyProp(vec![
                                dav::AnyProperty::Value(dav::Property::GetEtag(
                                    "\"23ba4d-ff11fb\"".into(),
                                )),
                                dav::AnyProperty::Value(dav::Property::Extension(
                                    Property::AddressData(AddressDataPayload {
                                        content_type: Default::default(),
                                        version: Default::default(),
                                        payload: "BEGIN:VCARD".into(),
                                    }),
                                )),
                            ]),
                            status: dav::Status(200),
                            error: None,
                            responsedescription: None,
                        }],
                    ),
                    error: None,
                    location: None,
                    responsedescription: None,
                },
            ],
            responsedescription: None,
        };
        
        let src = r#"
   <?xml version="1.0" encoding="utf-8" ?>
   <D:multistatus xmlns:D="DAV:"
                  xmlns:C="urn:ietf:params:xml:ns:carddav">
     <D:response>
       <D:href>/home/bernard/addressbook/v102.vcf</D:href>
       <D:propstat>
         <D:prop>
           <D:getetag>"23ba4d-ff11fb"</D:getetag>
           <C:address-data>BEGIN:VCARD</C:address-data>
         </D:prop>
         <D:status>HTTP/1.1 200 OK</D:status>
       </D:propstat>
     </D:response>
   </D:multistatus>
"#;

        let got = deserialize::<dav::Multistatus<Addressbook>>(src);
        assert_eq!(got, expected);
    }

    // §8.6.4, query
    #[test]
    fn carddecoder_rfc_addressbook_query_8_6_4() {
        let expected = AddressbookQuery {
            selector: Some(AddressbookSelector::Prop(dav::PropName(vec![
                dav::PropertyRequest::GetEtag,
                dav::PropertyRequest::Extension(PropertyRequest::AddressData(
                    AddressDataRequest {
                        content_type: Default::default(),
                        version: Default::default(),
                        prop_kind: Some(PropKind::Prop(vec![
                            CardProp {
                                name: PropertyName { group: None, name: "VERSION".into() },
                                novalue: Default::default(),
                            },
                            CardProp {
                                name: PropertyName { group: None, name: "UID".into() },
                                novalue: Default::default(),
                            },
                            CardProp {
                                name: PropertyName { group: None, name: "NICKNAME".into() },
                                novalue: Default::default(),
                            },
                            CardProp {
                                name: PropertyName { group: None, name: "EMAIL".into() },
                                novalue: Default::default(),
                            },
                            CardProp {
                                name: PropertyName { group: None, name: "FN".into() },
                                novalue: Default::default(),
                            },
                        ])),
                    }
                )),
            ]))),
            filter: Filter {
                prop_filters: vec![
                    PropFilter {
                        name: PropertyName { group: None, name: "FN".to_string() },
                        test: Default::default(),
                        rules: PropFilterRules::Match {
                            text_match: vec![TextMatch {
                                collation: WithDefault::new(Collation::UnicodeCaseMap),
                                match_type: WithDefault::new(TextMatchType::Contains),
                                negate_condition: WithDefault::default(),
                                text: "daboo".to_string(),
                            }],
                            param_filter: vec![],
                        },
                    },
                    PropFilter {
                        name: PropertyName { group: None, name: "EMAIL".to_string() },
                        test: Default::default(),
                        rules: PropFilterRules::Match {
                            text_match: vec![TextMatch {
                                collation: WithDefault::new(Collation::UnicodeCaseMap),
                                match_type: WithDefault::new(TextMatchType::Contains),
                                negate_condition: WithDefault::default(),
                                text: "daboo".to_string(),
                            }],
                            param_filter: vec![],
                        },
                    },
                ],
                test: WithDefault::new(FilterTest::AnyOf),
            },
            limit: None,
        };

        let src = r#"
   <?xml version="1.0" encoding="utf-8" ?>
   <C:addressbook-query xmlns:D="DAV:"
                     xmlns:C="urn:ietf:params:xml:ns:carddav">
     <D:prop>
       <D:getetag/>
       <C:address-data>
         <C:prop name="VERSION"/>
         <C:prop name="UID"/>
         <C:prop name="NICKNAME"/>
         <C:prop name="EMAIL"/>
         <C:prop name="FN"/>
       </C:address-data>
     </D:prop>
     <C:filter test="anyof">
       <C:prop-filter name="FN">
         <C:text-match collation="i;unicode-casemap"
                       match-type="contains"
         >daboo</C:text-match>
       </C:prop-filter>
       <C:prop-filter name="EMAIL">
         <C:text-match collation="i;unicode-casemap"
                       match-type="contains"
         >daboo</C:text-match>
       </C:prop-filter>
     </C:filter>
   </C:addressbook-query>
"#;
        
        let got = deserialize::<AddressbookQuery<Addressbook>>(src);

        assert_eq!(got, expected)
    }

    // §8.6.4, response
    #[test]
    fn carddecoder_rfc_addressbook_query_res_8_6_4() {
        let expected = dav::Multistatus::<Addressbook> {
            extension: None,
            responses: vec![
                dav::Response {
                    status_or_propstat: dav::StatusOrPropstat::PropStat(
                        dav::Href("/home/bernard/addressbook/v102.vcf".into()),
                        vec![dav::PropStat {
                            prop: dav::AnyProp(vec![
                                dav::AnyProperty::Value(dav::Property::GetEtag(
                                    "\"23ba4d-ff11fb\"".into(),
                                )),
                                dav::AnyProperty::Value(dav::Property::Extension(
                                    Property::AddressData(AddressDataPayload {
                                        content_type: Default::default(),
                                        version: Default::default(),
                                        payload: "BEGIN:VCARD".into(),
                                    }),
                                )),
                            ]),
                            status: dav::Status(200),
                            error: None,
                            responsedescription: None,
                        }],
                    ),
                    error: None,
                    location: None,
                    responsedescription: None,
                },
                dav::Response {
                    status_or_propstat: dav::StatusOrPropstat::PropStat(
                        dav::Href("/home/bernard/addressbook/v104.vcf".into()),
                        vec![dav::PropStat {
                            prop: dav::AnyProp(vec![
                                dav::AnyProperty::Value(dav::Property::GetEtag(
                                    "\"23ba4d-ff11fc\"".into(),
                                )),
                                dav::AnyProperty::Value(dav::Property::Extension(
                                    Property::AddressData(AddressDataPayload {
                                        content_type: Default::default(),
                                        version: Default::default(),
                                        payload: "BEGIN:VCARD".into(),
                                    }),
                                )),
                            ]),
                            status: dav::Status(200),
                            error: None,
                            responsedescription: None,
                        }],
                    ),
                    error: None,
                    location: None,
                    responsedescription: None,
                },
            ],
            responsedescription: None,
        };
        
        let src = r#"
   <?xml version="1.0" encoding="utf-8" ?>
   <D:multistatus xmlns:D="DAV:"
                  xmlns:C="urn:ietf:params:xml:ns:carddav">
     <D:response>
       <D:href>/home/bernard/addressbook/v102.vcf</D:href>
       <D:propstat>
         <D:prop>
           <D:getetag>"23ba4d-ff11fb"</D:getetag>
           <C:address-data>BEGIN:VCARD</C:address-data>
         </D:prop>
         <D:status>HTTP/1.1 200 OK</D:status>
       </D:propstat>
     </D:response>
     <D:response>
       <D:href>/home/bernard/addressbook/v104.vcf</D:href>
       <D:propstat>
         <D:prop>
           <D:getetag>"23ba4d-ff11fc"</D:getetag>
           <C:address-data>BEGIN:VCARD</C:address-data>
         </D:prop>
         <D:status>HTTP/1.1 200 OK</D:status>
       </D:propstat>
     </D:response>
   </D:multistatus>
"#;

        let got = deserialize::<dav::Multistatus<Addressbook>>(src);
        assert_eq!(got, expected);
    }

    // §8.6.5, query
    #[test]
    fn carddecoder_rfc_addressbook_query_8_6_5() {
        let expected = AddressbookQuery {
            selector: Some(AddressbookSelector::Prop(dav::PropName(vec![
                dav::PropertyRequest::GetEtag,
            ]))),
            filter: Filter {
                prop_filters: vec![
                    PropFilter {
                        name: PropertyName { group: None, name: "FN".to_string() },
                        test: Default::default(),
                        rules: PropFilterRules::Match {
                            text_match: vec![TextMatch {
                                collation: WithDefault::new(Collation::UnicodeCaseMap),
                                match_type: WithDefault::new(TextMatchType::Contains),
                                negate_condition: WithDefault::default(),
                                text: "daboo".to_string(),
                            }],
                            param_filter: vec![],
                        },
                    },
                ],
                test: WithDefault::new(FilterTest::AnyOf),
            },
            limit: Some(Limit { nresults: 2 }),
        };

        let src = r#"
   <?xml version="1.0" encoding="utf-8" ?>
   <C:addressbook-query xmlns:D="DAV:"
                     xmlns:C="urn:ietf:params:xml:ns:carddav">
     <D:prop>
       <D:getetag/>
     </D:prop>
     <C:filter test="anyof">
       <C:prop-filter name="FN">
         <C:text-match collation="i;unicode-casemap"
                       match-type="contains"
         >daboo</C:text-match>
       </C:prop-filter>
     </C:filter>
     <C:limit>
       <C:nresults>
         2
       </C:nresults>
     </C:limit>
   </C:addressbook-query>
"#;
        
        let got = deserialize::<AddressbookQuery<Addressbook>>(src);

        assert_eq!(got, expected)
    }

    // §8.6.5, response
    #[test]
    fn carddecoder_rfc_addressbook_query_res_8_6_5() {
        let expected = dav::Multistatus::<Addressbook> {
            extension: None,
            responses: vec![
                dav::Response {
                    status_or_propstat: dav::StatusOrPropstat::Status(
                        vec![dav::Href("/home/bernard/addressbook/".into())],
                        dav::Status(507),
                    ),
                    error: Some(dav::Error(vec![
                        dav::Violation::Extension(Violation::NumberOfMatchesWithinLimits),
                    ])),
                    responsedescription: Some(dav::ResponseDescription(
                        "\n         Only two matching records were returned\n       ".into()
                    )),
                    location: None,
                },
                dav::Response {
                    status_or_propstat: dav::StatusOrPropstat::PropStat(
                        dav::Href("/home/bernard/addressbook/v102.vcf".into()),
                        vec![dav::PropStat {
                            prop: dav::AnyProp(vec![
                                dav::AnyProperty::Value(dav::Property::GetEtag(
                                    "\"23ba4d-ff11fb\"".into(),
                                )),
                            ]),
                            status: dav::Status(200),
                            error: None,
                            responsedescription: None,
                        }],
                    ),
                    error: None,
                    location: None,
                    responsedescription: None,
                },
                dav::Response {
                    status_or_propstat: dav::StatusOrPropstat::PropStat(
                        dav::Href("/home/bernard/addressbook/v104.vcf".into()),
                        vec![dav::PropStat {
                            prop: dav::AnyProp(vec![
                                dav::AnyProperty::Value(dav::Property::GetEtag(
                                    "\"23ba4d-ff11fc\"".into(),
                                )),
                            ]),
                            status: dav::Status(200),
                            error: None,
                            responsedescription: None,
                        }],
                    ),
                    error: None,
                    location: None,
                    responsedescription: None,
                },
            ],
            responsedescription: None,
        };
        
        let src = r#"
   <?xml version="1.0" encoding="utf-8" ?>
   <D:multistatus xmlns:D="DAV:"
                  xmlns:C="urn:ietf:params:xml:ns:carddav">
     <D:response>
       <D:href>/home/bernard/addressbook/</D:href>
       <D:status>HTTP/1.1 507 Insufficient Storage</D:status>
       <D:error><D:number-of-matches-within-limits/></D:error>
       <D:responsedescription xml:lang="en">
         Only two matching records were returned
       </D:responsedescription>
     </D:response>
     <D:response>
       <D:href>/home/bernard/addressbook/v102.vcf</D:href>
       <D:propstat>
         <D:prop>
           <D:getetag>"23ba4d-ff11fb"</D:getetag>
         </D:prop>
         <D:status>HTTP/1.1 200 OK</D:status>
       </D:propstat>
     </D:response>
     <D:response>
       <D:href>/home/bernard/addressbook/v104.vcf</D:href>
       <D:propstat>
         <D:prop>
           <D:getetag>"23ba4d-ff11fc"</D:getetag>
         </D:prop>
         <D:status>HTTP/1.1 200 OK</D:status>
       </D:propstat>
     </D:response>
   </D:multistatus>
"#;

        let got = deserialize::<dav::Multistatus<Addressbook>>(src);
        assert_eq!(got, expected);
    }

    // §8.7.1, query
    #[test]
    fn carddecoder_rfc_multiget_query_8_7_1() {
        let expected = AddressbookMultiget {
            selector: Some(AddressbookSelector::Prop(dav::PropName(vec![
                dav::PropertyRequest::GetEtag,
                dav::PropertyRequest::Extension(PropertyRequest::AddressData(
                    AddressDataRequest {
                        content_type: Default::default(),
                        version: Default::default(),
                        prop_kind: Some(PropKind::Prop(vec![
                            CardProp {
                                name: PropertyName { group: None, name: "VERSION".into() },
                                novalue: Default::default(),
                            },
                            CardProp {
                                name: PropertyName { group: None, name: "UID".into() },
                                novalue: Default::default(),
                            },
                            CardProp {
                                name: PropertyName { group: None, name: "NICKNAME".into() },
                                novalue: Default::default(),
                            },
                            CardProp {
                                name: PropertyName { group: None, name: "EMAIL".into() },
                                novalue: Default::default(),
                            },
                            CardProp {
                                name: PropertyName { group: None, name: "FN".into() },
                                novalue: Default::default(),
                            },
                        ])),
                    }
                )),
            ]))),
            href: vec![
                dav::Href("/home/bernard/addressbook/vcf102.vcf".into()),
                dav::Href("/home/bernard/addressbook/vcf1.vcf".into()),
            ],
        };

        let src = r#"
   <?xml version="1.0" encoding="utf-8" ?>
   <C:addressbook-multiget xmlns:D="DAV:"
                        xmlns:C="urn:ietf:params:xml:ns:carddav">
     <D:prop>
       <D:getetag/>
       <C:address-data>
         <C:prop name="VERSION"/>
         <C:prop name="UID"/>
         <C:prop name="NICKNAME"/>
         <C:prop name="EMAIL"/>
         <C:prop name="FN"/>
       </C:address-data>
     </D:prop>
     <D:href>/home/bernard/addressbook/vcf102.vcf</D:href>
     <D:href>/home/bernard/addressbook/vcf1.vcf</D:href>
   </C:addressbook-multiget>
"#;
        
        let got = deserialize::<AddressbookMultiget<Addressbook>>(src);

        assert_eq!(got, expected)
    }

    // §8.7.1, response
    #[test]
    fn carddecoder_rfc_multiget_query_res_8_7_1() {
        let expected = dav::Multistatus::<Addressbook> {
            extension: None,
            responses: vec![
                dav::Response {
                    status_or_propstat: dav::StatusOrPropstat::PropStat(
                        dav::Href("/home/bernard/addressbook/vcf102.vcf".into()),
                        vec![dav::PropStat {
                            prop: dav::AnyProp(vec![
                                dav::AnyProperty::Value(dav::Property::GetEtag(
                                    "\"23ba4d-ff11fb\"".into(),
                                )),
                                dav::AnyProperty::Value(dav::Property::Extension(
                                    Property::AddressData(AddressDataPayload {
                                        content_type: Default::default(),
                                        version: Default::default(),
                                        payload: "BEGIN:VCARD".into(),
                                    }),
                                )),
                            ]),
                            status: dav::Status(200),
                            error: None,
                            responsedescription: None,
                        }],
                    ),
                    error: None,
                    location: None,
                    responsedescription: None,
                },
                dav::Response {
                    status_or_propstat: dav::StatusOrPropstat::Status(
                        vec![dav::Href("/home/bernard/addressbook/vcf1.vcf".into())],
                        dav::Status(404),
                    ),
                    error: None,
                    location: None,
                    responsedescription: None,
                },
            ],
            responsedescription: None,
        };
        
        let src = r#"
   <?xml version="1.0" encoding="utf-8" ?>
   <D:multistatus xmlns:D="DAV:"
                  xmlns:C="urn:ietf:params:xml:ns:carddav">
     <D:response>
       <D:href>/home/bernard/addressbook/vcf102.vcf</D:href>
       <D:propstat>
         <D:prop>
           <D:getetag>"23ba4d-ff11fb"</D:getetag>
           <C:address-data>BEGIN:VCARD</C:address-data>
         </D:prop>
         <D:status>HTTP/1.1 200 OK</D:status>
       </D:propstat>
     </D:response>
     <D:response>
       <D:href>/home/bernard/addressbook/vcf1.vcf</D:href>
       <D:status>HTTP/1.1 404 Resource not found</D:status>
     </D:response>
   </D:multistatus>
"#;

        let got = deserialize::<dav::Multistatus<Addressbook>>(src);
        assert_eq!(got, expected);
    }

    // §8.7.2, query
    #[test]
    fn carddecoder_rfc_multiget_query_8_7_2() {
        let expected = AddressbookMultiget {
            selector: Some(AddressbookSelector::Prop(dav::PropName(vec![
                dav::PropertyRequest::GetEtag,
                dav::PropertyRequest::Extension(PropertyRequest::AddressData(
                    AddressDataRequest {
                        content_type: WithDefault::new(ContentType("text/vcard".to_string())),
                        version: WithDefault::new(Version("4.0".to_string())),
                        prop_kind: None,
                    }
                )),
            ]))),
            href: vec![
                dav::Href("/home/bernard/addressbook/vcf3.vcf".into()),
            ],
        };

        let src = r#"
 <?xml version="1.0" encoding="utf-8" ?>
   <C:addressbook-multiget xmlns:D="DAV:"
                        xmlns:C="urn:ietf:params:xml:ns:carddav">
     <D:prop>
       <D:getetag/>
       <C:address-data content-type='text/vcard' version='4.0'/>
     </D:prop>
     <D:href>/home/bernard/addressbook/vcf3.vcf</D:href>
   </C:addressbook-multiget>
"#;
        
        let got = deserialize::<AddressbookMultiget<Addressbook>>(src);

        assert_eq!(got, expected)
    }

    // §8.7.1, response
    #[test]
    fn carddecoder_rfc_multiget_query_res_8_7_2() {
        let expected = dav::Multistatus::<Addressbook> {
            extension: None,
            responses: vec![
                dav::Response {
                    status_or_propstat: dav::StatusOrPropstat::Status(
                        vec![dav::Href("/home/bernard/addressbook/vcf3.vcf".into())],
                        dav::Status(415),
                    ),
                    error: Some(dav::Error(vec![
                        dav::Violation::Extension(
                            Violation::SupportedAddressDataConversion
                        )
                    ])),
                    location: None,
                    responsedescription: Some(dav::ResponseDescription(
                        "Unable to convert from vCard v3.0\n       to vCard v4.0".into()
                    )),
                },
            ],
            responsedescription: None,
        };
        
        let src = r#"
   <?xml version="1.0" encoding="utf-8" ?>
   <D:multistatus xmlns:D="DAV:"
                  xmlns:C="urn:ietf:params:xml:ns:carddav">
     <D:response>
       <D:href>/home/bernard/addressbook/vcf3.vcf</D:href>
       <D:status>HTTP/1.1 415 Unsupported Media Type</D:status>
       <D:error><C:supported-address-data-conversion/></D:error>
       <D:responsedescription>Unable to convert from vCard v3.0
       to vCard v4.0</D:responsedescription>
     </D:response>
   </D:multistatus>
"#;

        let got = deserialize::<dav::Multistatus<Addressbook>>(src);
        assert_eq!(got, expected);
    }
