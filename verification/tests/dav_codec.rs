use aerogramme_core::dav::acltypes::{
    Privilege, PrivilegeSet, Property as AclProperty, PropertyRequest as AclPropertyRequest,
    ResourceType as AclResourceType, User, Violation as AclViolation,
};
use aerogramme_core::dav::error::ParsingError;
use aerogramme_core::dav::realization::{Acl, Core};
use aerogramme_core::dav::types::{
    ActiveLock, Depth, Href, LockEntry, LockInfo, LockRoot, LockScope, LockToken, LockType, Location, Owner,
    AnyProp, AnyProperty, DateTimeOffset, Error as DavError, Include, Multistatus, PropFind, PropName, PropSet,
    PropStat, PropValue, Property as DavProperty, PropertyRequest as DavPropertyRequest, PropertyUpdate,
    PropertyUpdateItem, Remove, ResourceType as DavResourceType, Response, ResponseDescription, Status,
    StatusOrPropstat, Timeout, Violation as DavViolation,
};
use aerogramme_core::dav::cardtypes::{
    AddressDataRequest, CardProp, ContentType, NoValue, PropKind, PropertyName, PropertyRequest as CardPropertyRequest,
    ReportTypeName as CardReportTypeName, ResourceType as CardResourceType, Version,
};
use aerogramme_core::dav::realization::{
    All, Property as AllProperty, PropertyRequest as AllPropertyRequest, ReportTypeName as AllReportTypeName,
    ResourceType as AllResourceType,
};
use aerogramme_core::dav::versioningtypes::{
    Property as VersProperty, Report, ReportName, SupportedReport,
};
use aerogramme_core::dav::synctypes::{SyncCollection, SyncLevel, SyncToken, SyncTokenRequest};
use aerogramme_core::dav::xml::WithDefault;
use aerogramme_core::dav::versioningtypes::{Limit, NResults, PropertyRequest};
use aerogramme_core::dav::xml::{QRead, QWrite, Reader, WEvent, Writer, XmlEvent, XmlName, XmlTag};
use quick_xml::events::{BytesEnd, BytesStart, BytesText, Event};
use quick_xml::name::ResolveResult;

/// The events an XML reader gives for a document.
fn events_of(src: &str) -> Vec<XmlEvent> {
    let mut rdr = quick_xml::NsReader::from_reader(src.as_bytes());
    let mut buf = Vec::new();
    let mut out = Vec::new();
    loop {
        let ev = match rdr.read_event_into(&mut buf) {
            Err(_) => {
                out.push(XmlEvent::Fail);
                break;
            }
            Ok(e) => e.into_owned(),
        };
        let name_of = |rdr: &quick_xml::NsReader<&[u8]>, q: quick_xml::name::QName| {
            let (ns, local) = rdr.resolve_element(q);
            XmlName {
                qname: String::from_utf8_lossy(q.as_ref()).into_owned(),
                ns: match ns {
                    ResolveResult::Bound(n) => Some(String::from_utf8_lossy(n.as_ref()).into_owned()),
                    _ => None,
                },
                local: String::from_utf8_lossy(local.as_ref()).into_owned(),
            }
        };
        let tag_of = |rdr: &quick_xml::NsReader<&[u8]>, b: &BytesStart| {
            let mut attrs = Vec::new();
            for a in b.attributes() {
                match a {
                    Ok(a) => attrs.push((
                        String::from_utf8_lossy(a.key.as_ref()).into_owned(),
                        a.decode_and_unescape_value(rdr).ok().map(|v| v.into_owned()),
                    )),
                    Err(_) => break,
                }
            }
            XmlTag { name: name_of(rdr, b.name()), attrs }
        };
        match ev {
            Event::Start(b) => out.push(XmlEvent::Start(tag_of(&rdr, &b))),
            Event::Empty(b) => out.push(XmlEvent::Empty(tag_of(&rdr, &b))),
            Event::End(b) => out.push(XmlEvent::End(name_of(&rdr, b.name()))),
            Event::Text(t) => out.push(XmlEvent::Text(t.unescape().ok().map(|v| v.into_owned()))),
            Event::CData(c) => out.push(XmlEvent::CData(String::from_utf8(c.into_inner().into_owned()).ok())),
            Event::Eof => {
                out.push(XmlEvent::Eof);
                break;
            }
            _ => out.push(XmlEvent::Other),
        }
        buf.clear();
    }
    out
}

fn deserialize<T: QRead>(src: &str) -> T {
    let mut rdr = Reader::new(events_of(src)).unwrap();
    rdr.find().unwrap()
}

fn try_deserialize<T: QRead>(src: &str) -> Result<T, ParsingError> {
    let mut rdr = Reader::new(events_of(src))?;
    rdr.find()
}

/// The text of written events, indented by four spaces.
fn to_text(events: &[WEvent]) -> String {
    let mut w = quick_xml::Writer::new_with_indent(Vec::new(), b' ', 4);
    for e in events {
        let ev = match e {
            WEvent::Start(s) | WEvent::Empty(s) => {
                let mut b = BytesStart::new(s.qname.as_str());
                for (k, v) in s.attrs.iter() {
                    b.push_attribute((k.as_str(), v.as_str()));
                }
                if matches!(e, WEvent::Start(_)) {
                    Event::Start(b)
                } else {
                    Event::Empty(b)
                }
            }
            WEvent::End(q) => Event::End(BytesEnd::new(q.as_str())),
            WEvent::Text(t) => Event::Text(BytesText::new(t.as_str())),
        };
        w.write_event(ev).unwrap();
    }
    String::from_utf8(w.into_inner()).unwrap()
}

fn serialize<T: QWrite>(v: &T) -> String {
    let ns = vec![
        ("xmlns:D".to_string(), "DAV:".to_string()),
        ("xmlns:C".to_string(), "urn:ietf:params:xml:ns:caldav".to_string()),
    ];
    let mut writer = Writer::new(ns);
    v.qwrite(&mut writer);
    to_text(&writer.events)
}

fn serialize_deserialize<T: QRead + QWrite>(src: &T) -> T {
    let got = serialize(src);
    deserialize(&got)
}

#[test]
fn syncdecoder_sync_level() {
    {
        let expected = SyncLevel::One;
        let src = r#"<D:sync-level xmlns:D="DAV:">1</D:sync-level>"#;
        let got = deserialize::<SyncLevel>(src);
        assert_eq!(got, expected);
    }
    {
        let expected = SyncLevel::Infinite;
        let src = r#"<D:sync-level xmlns:D="DAV:">infinite</D:sync-level>"#;
        let got = deserialize::<SyncLevel>(src);
        assert_eq!(got, expected);
    }
}

#[test]
fn syncdecoder_sync_token_request() {
    {
        let expected = SyncTokenRequest::InitialSync;
        let src = r#"<D:sync-token xmlns:D="DAV:"/>"#;
        let got = deserialize::<SyncTokenRequest>(src);
        assert_eq!(got, expected);
    }
    {
        let expected = SyncTokenRequest::IncrementalSync("http://example.com/ns/sync/1232".into());
        let src = r#"<D:sync-token xmlns:D="DAV:">http://example.com/ns/sync/1232</D:sync-token>"#;
        let got = deserialize::<SyncTokenRequest>(src);
        assert_eq!(got, expected);
    }
}

#[test]
fn syncdecoder_sync_token() {
    let expected = SyncToken("http://example.com/ns/sync/1232".into());
    let src = r#"<D:sync-token xmlns:D="DAV:">http://example.com/ns/sync/1232</D:sync-token>"#;
    let got = deserialize::<SyncToken>(src);
    assert_eq!(got, expected);
}

#[test]
fn syncencoder_sync_level() {
    assert_eq!(serialize_deserialize(&SyncLevel::One), SyncLevel::One);
    assert_eq!(serialize_deserialize(&SyncLevel::Infinite), SyncLevel::Infinite);
}

#[test]
fn syncencoder_sync_token_request() {
    let a = SyncTokenRequest::InitialSync;
    assert_eq!(serialize_deserialize(&a), a);
    let b = SyncTokenRequest::IncrementalSync("http://example.com/ns/sync/1232".into());
    assert_eq!(serialize_deserialize(&b), b);
}

#[test]
fn syncencoder_sync_token() {
    let a = SyncToken("http://example.com/ns/sync/1232".into());
    assert_eq!(serialize_deserialize(&a), a);
}

#[test]
fn versioningdecoder_nresults() {
    let expected = NResults(100);
    let src = r#"<D:nresults xmlns:D="DAV:">100</D:nresults>"#;
    let got = deserialize::<NResults>(src);
    assert_eq!(got, expected);
}

#[test]
fn versioningdecoder_limit() {
    let expected = Limit(NResults(1024));
    let src = r#"<D:limit xmlns:D="DAV:">
            <D:nresults>1024</D:nresults>
        </D:limit>"#;
    let got = deserialize::<Limit>(src);
    assert_eq!(got, expected);
}

#[test]
fn versioningencoder_nresults() {
    let orig = NResults(100);
    assert_eq!(orig, serialize_deserialize(&orig));
}

#[test]
fn versioningencoder_limit() {
    let orig = Limit(NResults(1024));
    assert_eq!(orig, serialize_deserialize(&orig));
}

#[test]
fn encoder_writes_the_namespaces_on_the_first_element() {
    let got = serialize(&Limit(NResults(7)));
    assert_eq!(
        got,
        "<D:limit xmlns:D=\"DAV:\" xmlns:C=\"urn:ietf:params:xml:ns:caldav\">\n    <D:nresults>7</D:nresults>\n</D:limit>"
    );
}

#[test]
fn sync_level_is_case_insensitive_and_checked() {
    let got = deserialize::<SyncLevel>(r#"<D:sync-level xmlns:D="DAV:">INFinite</D:sync-level>"#);
    assert_eq!(got, SyncLevel::Infinite);
    let bad = try_deserialize::<SyncLevel>(r#"<D:sync-level xmlns:D="DAV:">2</D:sync-level>"#);
    assert_eq!(bad, Err(ParsingError::InvalidValue));
}

#[test]
fn nresults_errors() {
    let bad = try_deserialize::<NResults>(r#"<D:nresults xmlns:D="DAV:">-1</D:nresults>"#);
    assert_eq!(bad, Err(ParsingError::Int));
    let big = try_deserialize::<NResults>(r#"<D:nresults xmlns:D="DAV:">18446744073709551616</D:nresults>"#);
    assert_eq!(big, Err(ParsingError::Int));
    let plus = deserialize::<NResults>(r#"<D:nresults xmlns:D="DAV:">+18446744073709551615</D:nresults>"#);
    assert_eq!(plus, NResults(u64::MAX));
    // A self-closing element has no text: it is skipped, and nothing else
    // is found.
    let empty = try_deserialize::<NResults>(r#"<D:nresults xmlns:D="DAV:"/>"#);
    assert_eq!(empty, Err(ParsingError::Eof));
}

#[test]
fn reader_skips_other_elements_and_namespaces() {
    // The nresults element of another namespace is skipped.
    let src = r#"<D:limit xmlns:D="DAV:" xmlns:X="urn:x"><X:nresults>5</X:nresults><D:nresults>9</D:nresults></D:limit>"#;
    assert_eq!(deserialize::<Limit>(src), Limit(NResults(9)));
    // Comments and CDATA inside text are read through.
    let src2 = r#"<D:sync-token xmlns:D="DAV:">a<!-- c --><![CDATA[<b>]]>&amp;c</D:sync-token>"#;
    assert_eq!(deserialize::<SyncToken>(src2), SyncToken("a<b>&c".into()));
}

#[test]
fn reader_failures() {
    // Nothing to find.
    assert_eq!(try_deserialize::<NResults>("<x/>").map(|_| ()), Err(ParsingError::Eof));
    // A closing tag that does not match.
    let bad = try_deserialize::<Limit>(r#"<D:limit xmlns:D="DAV:"><D:nresults>1</D:limit>"#);
    assert_eq!(bad, Err(ParsingError::QuickXml));
    // The document ends inside the text.
    let cut = try_deserialize::<SyncToken>(r#"<D:sync-token xmlns:D="DAV:">abc"#);
    assert_eq!(cut, Err(ParsingError::Eof));
    // A versioning property name.
    let p = deserialize::<PropertyRequest>(r#"<D:supported-report-set xmlns:D="DAV:"/>"#);
    assert_eq!(p, PropertyRequest::SupportedReportSet);
    assert_eq!(ParsingError::Eof.message(), "Found EOF while expecting data");
}

#[test]
fn acl_privileges_roundtrip() {
    let all = PrivilegeSet(vec![
        Privilege::Read,
        Privilege::Write,
        Privilege::WriteProperties,
        Privilege::WriteContent,
        Privilege::Unlock,
        Privilege::ReadAcl,
        Privilege::ReadCurrentUserPrivilegeSet,
        Privilege::WriteAcl,
        Privilege::Bind,
        Privilege::Unbind,
        Privilege::All,
    ]);
    assert_eq!(serialize_deserialize(&all), all);
    let none = PrivilegeSet(vec![]);
    assert_eq!(serialize_deserialize(&none), none);
}

#[test]
fn acl_privilege_set_decodes_rfc_example() {
    let src = r#"<D:privilege xmlns:D="DAV:">
        <D:read/>
        <D:unknown-privilege/>
        <D:write-acl/>
    </D:privilege>"#;
    assert_eq!(deserialize::<PrivilegeSet>(src), PrivilegeSet(vec![Privilege::Read, Privilege::WriteAcl]));
}

#[test]
fn acl_properties_roundtrip() {
    let owner = AclProperty::Owner(Href("/principals/alice/".into()));
    assert_eq!(serialize_deserialize(&owner), owner);
    let anon = AclProperty::CurrentUserPrincipal(User::Unauthenticated);
    assert_eq!(serialize_deserialize(&anon), anon);
    let user = AclProperty::CurrentUserPrincipal(User::Authenticated(Href("/principals/bob/".into())));
    assert_eq!(serialize_deserialize(&user), user);
    let privs = AclProperty::CurrentUserPrivilegeSet(PrivilegeSet(vec![Privilege::Read]));
    assert_eq!(serialize_deserialize(&privs), privs);
    for req in [AclPropertyRequest::Owner, AclPropertyRequest::CurrentUserPrincipal, AclPropertyRequest::CurrentUserPrivilegeSet] {
        assert_eq!(serialize_deserialize(&req), req);
    }
    assert_eq!(serialize_deserialize(&AclResourceType::Principal), AclResourceType::Principal);
}

#[test]
fn acl_property_written_form() {
    let owner = AclProperty::Owner(Href("/p/".into()));
    assert_eq!(
        serialize(&owner),
        "<D:owner xmlns:D=\"DAV:\" xmlns:C=\"urn:ietf:params:xml:ns:caldav\">\n    <D:href>/p/</D:href>\n</D:owner>"
    );
    let v = deserialize::<AclViolation>(r#"<D:number-of-matches-within-limits xmlns:D="DAV:"/>"#);
    assert_eq!(v, AclViolation::NumberOfMatchesWithinLimits);
}

#[test]
fn href_roundtrip() {
    let h = Href("http://example.com/a b&c".into());
    assert_eq!(serialize_deserialize(&h), h);
}

#[test]
fn rfc_lockinfo() {
    let src = r#"
<?xml version="1.0" encoding="utf-8" ?>
<D:lockinfo xmlns:D='DAV:'>
    <D:lockscope><D:exclusive/></D:lockscope>
    <D:locktype><D:write/></D:locktype>
    <D:owner>
        <D:href>http://example.org/~ejw/contact.html</D:href>
    </D:owner>
</D:lockinfo>
"#;

    let mut rdr = Reader::new(events_of(src)).unwrap();
    let got = rdr.find::<LockInfo>().unwrap();

    assert_eq!(
        got,
        LockInfo {
            lockscope: LockScope::Exclusive,
            locktype: LockType::Write,
            owner: Some(Owner::Href(Href("http://example.org/~ejw/contact.html".into()))),
        }
    );
}

#[test]
fn lock_activelock_rfc_example() {
    let src = r#"<D:activelock xmlns:D="DAV:">
        <D:locktype><D:write/></D:locktype>
        <D:lockscope><D:shared/></D:lockscope>
        <D:depth>infinity</D:depth>
        <D:owner>Jane Smith</D:owner>
        <D:timeout>Second-604800</D:timeout>
        <D:locktoken>
            <D:href>urn:uuid:f81de2ad-7f3d-a1b2-4f3c-00a0c91a9d76</D:href>
        </D:locktoken>
        <D:lockroot>
            <D:href>http://example.com/workspace/webdav/proposal.doc</D:href>
        </D:lockroot>
    </D:activelock>"#;
    let got = deserialize::<ActiveLock>(src);
    assert_eq!(
        got,
        ActiveLock {
            lockscope: LockScope::Shared,
            locktype: LockType::Write,
            depth: Depth::Infinity,
            owner: Some(Owner::Txt("Jane Smith".into())),
            timeout: Some(Timeout::Seconds(604800)),
            locktoken: Some(LockToken(Href("urn:uuid:f81de2ad-7f3d-a1b2-4f3c-00a0c91a9d76".into()))),
            lockroot: LockRoot(Href("http://example.com/workspace/webdav/proposal.doc".into())),
        }
    );
}

#[test]
fn lock_missing_children() {
    let no_root = r#"<D:activelock xmlns:D="DAV:">
        <D:locktype><D:write/></D:locktype>
        <D:lockscope><D:exclusive/></D:lockscope>
        <D:depth>0</D:depth>
    </D:activelock>"#;
    assert_eq!(try_deserialize::<ActiveLock>(no_root), Err(ParsingError::MissingChild));
    let entry = r#"<D:lockentry xmlns:D="DAV:"><D:lockscope><D:shared/></D:lockscope><D:locktype><D:write/></D:locktype></D:lockentry>"#;
    assert_eq!(deserialize::<LockEntry>(entry), LockEntry { lockscope: LockScope::Shared, locktype: LockType::Write });
    let half = r#"<D:lockentry xmlns:D="DAV:"><D:lockscope><D:shared/></D:lockscope></D:lockentry>"#;
    assert_eq!(try_deserialize::<LockEntry>(half), Err(ParsingError::MissingChild));
}

#[test]
fn lock_values() {
    assert_eq!(deserialize::<Depth>(r#"<D:depth xmlns:D="DAV:">1</D:depth>"#), Depth::One);
    assert_eq!(try_deserialize::<Depth>(r#"<D:depth xmlns:D="DAV:">2</D:depth>"#), Err(ParsingError::WrongToken));
    assert_eq!(deserialize::<Timeout>(r#"<D:timeout xmlns:D="DAV:">Infinite</D:timeout>"#), Timeout::Infinite);
    assert_eq!(
        try_deserialize::<Timeout>(r#"<D:timeout xmlns:D="DAV:">Second-x</D:timeout>"#),
        Err(ParsingError::Int)
    );
    assert_eq!(
        try_deserialize::<Timeout>(r#"<D:timeout xmlns:D="DAV:">Minute-3</D:timeout>"#),
        Err(ParsingError::InvalidValue)
    );
    assert_eq!(
        try_deserialize::<Timeout>(r#"<D:timeout xmlns:D="DAV:">Second-4294967296</D:timeout>"#),
        Err(ParsingError::Int)
    );
    assert_eq!(deserialize::<Status>(r#"<D:status xmlns:D="DAV:">HTTP/1.1 423 Locked</D:status>"#), Status(423));
    assert_eq!(
        try_deserialize::<Status>(r#"<D:status xmlns:D="DAV:">HTTP/1.1 042 Nope</D:status>"#),
        Err(ParsingError::InvalidValue)
    );
    assert_eq!(
        try_deserialize::<Status>(r#"<D:status xmlns:D="DAV:">200</D:status>"#),
        Err(ParsingError::InvalidValue)
    );
    assert_eq!(
        deserialize::<Location>(r#"<D:location xmlns:D="DAV:"><D:href>/a</D:href></D:location>"#),
        Location(Href("/a".into()))
    );
    assert_eq!(
        deserialize::<ResponseDescription>(r#"<D:responsedescription xmlns:D="DAV:">Done</D:responsedescription>"#),
        ResponseDescription("Done".into())
    );
}

#[test]
fn lock_owner_forms() {
    assert_eq!(deserialize::<Owner>(r#"<D:owner xmlns:D="DAV:">Jane</D:owner>"#), Owner::Txt("Jane".into()));
    // A reference wins over text.
    let both = r#"<D:owner xmlns:D="DAV:">Jane<D:href>/j</D:href></D:owner>"#;
    assert_eq!(deserialize::<Owner>(both), Owner::Href(Href("/j".into())));
    // Other elements are skipped.
    let other = r#"<D:owner xmlns:D="DAV:"><D:x>y</D:x></D:owner>"#;
    assert_eq!(deserialize::<Owner>(other), Owner::Unknown);
}

#[test]
fn basic_propfind_propname() {
    let src = r#"<?xml version="1.0" encoding="utf-8" ?>
<rando/>
<garbage><old/></garbage>
<D:propfind xmlns:D="DAV:">
    <D:propname/>
</D:propfind>
"#;

    let mut rdr = Reader::new(events_of(src)).unwrap();
    let got = rdr.find::<PropFind<Core>>().unwrap();

    assert_eq!(got, PropFind::<Core>::PropName);
}

#[test]
fn basic_propfind_prop() {
    let src = r#"<?xml version="1.0" encoding="utf-8" ?>
<rando/>
<garbage><old/></garbage>
<D:propfind xmlns:D="DAV:">
    <D:prop>
        <D:displayname/>
        <D:getcontentlength/>
        <D:getcontenttype/>
        <D:getetag/>
        <D:getlastmodified/>
        <D:resourcetype/>
        <D:supportedlock/>
    </D:prop>
</D:propfind>
"#;

    let mut rdr = Reader::new(events_of(src)).unwrap();
    let got = rdr.find::<PropFind<Core>>().unwrap();

    assert_eq!(
        got,
        PropFind::Prop(PropName(vec![
            DavPropertyRequest::DisplayName,
            DavPropertyRequest::GetContentLength,
            DavPropertyRequest::GetContentType,
            DavPropertyRequest::GetEtag,
            DavPropertyRequest::GetLastModified,
            DavPropertyRequest::ResourceType,
            DavPropertyRequest::SupportedLock,
        ]))
    );
}

#[test]
fn propfind_allprop_with_include() {
    let src = r#"<D:propfind xmlns:D="DAV:">
    <D:allprop/>
    <D:include>
        <D:creationdate/>
        <D:lockdiscovery/>
        <D:unknown-name/>
    </D:include>
</D:propfind>"#;
    let got = deserialize::<PropFind<Core>>(src);
    assert_eq!(
        got,
        PropFind::AllProp(Some(Include(vec![
            DavPropertyRequest::CreationDate,
            DavPropertyRequest::LockDiscovery,
        ])))
    );
}

#[test]
fn propfind_allprop_alone() {
    let src = r#"<D:propfind xmlns:D="DAV:"><D:allprop/></D:propfind>"#;
    assert_eq!(deserialize::<PropFind<Core>>(src), PropFind::AllProp(None));
}

#[test]
fn propfind_with_acl_names() {
    let src = r#"<D:propfind xmlns:D="DAV:"><D:prop><D:owner/><D:getetag/></D:prop></D:propfind>"#;
    let got = deserialize::<PropFind<Acl>>(src);
    assert_eq!(
        got,
        PropFind::Prop(PropName(vec![
            DavPropertyRequest::Extension(AclPropertyRequest::Owner),
            DavPropertyRequest::GetEtag,
        ]))
    );
}

#[test]
fn propfind_without_body_fails() {
    let src = r#"<D:propfind xmlns:D="DAV:"></D:propfind>"#;
    assert_eq!(try_deserialize::<PropFind<Core>>(src), Err(ParsingError::WrongToken));
}

#[test]
fn rfc_lock_error() {
    let src = r#"<?xml version="1.0" encoding="utf-8" ?>
     <D:error xmlns:D="DAV:">
       <D:lock-token-submitted>
         <D:href>/locked/</D:href>
       </D:lock-token-submitted>
     </D:error>"#;

    let mut rdr = Reader::new(events_of(src)).unwrap();
    let got = rdr.find::<DavError<Core>>().unwrap();

    assert_eq!(got, DavError(vec![DavViolation::LockTokenSubmitted(vec![Href("/locked/".into())])]));
}

#[test]
fn rfc_propertyupdate() {
    let src = r#"<?xml version="1.0" encoding="utf-8" ?>
     <D:propertyupdate xmlns:D="DAV:"
             xmlns:Z="http://ns.example.com/standards/z39.50/">
       <D:set>
         <D:prop>
           <Z:Authors>
             <Z:Author>Jim Whitehead</Z:Author>
             <Z:Author>Roy Fielding</Z:Author>
           </Z:Authors>
         </D:prop>
       </D:set>
       <D:remove>
         <D:prop><Z:Copyright-Owner/></D:prop>
       </D:remove>
     </D:propertyupdate>"#;

    let mut rdr = Reader::new(events_of(src)).unwrap();
    let got = rdr.find::<PropertyUpdate<Core>>().unwrap();

    assert_eq!(
        got,
        PropertyUpdate(vec![
            PropertyUpdateItem::SetValues(PropSet(PropValue(vec![]))),
            PropertyUpdateItem::Remove(Remove(PropName(vec![]))),
        ])
    );
}

#[test]
fn rfc_multistatus_name() {
    let src = r#"
<?xml version="1.0" encoding="utf-8" ?>
    <multistatus xmlns="DAV:">
       <response>
         <href>http://www.example.com/container/</href>
         <propstat>
           <prop xmlns:R="http://ns.example.com/boxschema/">
             <R:bigbox/>
             <R:author/>
             <creationdate/>
             <displayname/>
             <resourcetype/>
             <supportedlock/>
           </prop>
           <status>HTTP/1.1 200 OK</status>
         </propstat>
       </response>
       <response>
         <href>http://www.example.com/container/front.html</href>
         <propstat>
           <prop xmlns:R="http://ns.example.com/boxschema/">
             <R:bigbox/>
             <creationdate/>
             <displayname/>
             <getcontentlength/>
             <getcontenttype/>
             <getetag/>
             <getlastmodified/>
             <resourcetype/>
             <supportedlock/>
           </prop>
           <status>HTTP/1.1 200 OK</status>
         </propstat>
       </response>
     </multistatus>
"#;

    let mut rdr = Reader::new(events_of(src)).unwrap();
    let got = rdr.find::<Multistatus<Core>>().unwrap();

    assert_eq!(
        got,
        Multistatus {
            responses: vec![
                Response {
                    status_or_propstat: StatusOrPropstat::PropStat(
                        Href("http://www.example.com/container/".into()),
                        vec![PropStat {
                            prop: AnyProp(vec![
                                AnyProperty::Request(DavPropertyRequest::CreationDate),
                                AnyProperty::Request(DavPropertyRequest::DisplayName),
                                AnyProperty::Request(DavPropertyRequest::ResourceType),
                                AnyProperty::Request(DavPropertyRequest::SupportedLock),
                            ]),
                            status: Status(200),
                            error: None,
                            responsedescription: None,
                        }],
                    ),
                    error: None,
                    responsedescription: None,
                    location: None,
                },
                Response {
                    status_or_propstat: StatusOrPropstat::PropStat(
                        Href("http://www.example.com/container/front.html".into()),
                        vec![PropStat {
                            prop: AnyProp(vec![
                                AnyProperty::Request(DavPropertyRequest::CreationDate),
                                AnyProperty::Request(DavPropertyRequest::DisplayName),
                                AnyProperty::Request(DavPropertyRequest::GetContentLength),
                                AnyProperty::Request(DavPropertyRequest::GetContentType),
                                AnyProperty::Request(DavPropertyRequest::GetEtag),
                                AnyProperty::Request(DavPropertyRequest::GetLastModified),
                                AnyProperty::Request(DavPropertyRequest::ResourceType),
                                AnyProperty::Request(DavPropertyRequest::SupportedLock),
                            ]),
                            status: Status(200),
                            error: None,
                            responsedescription: None,
                        }],
                    ),
                    error: None,
                    responsedescription: None,
                    location: None,
                },
            ],
            responsedescription: None,
            extension: None,
        }
    );
}

#[test]
fn rfc_multistatus_value() {
    let src = r#"
     <?xml version="1.0" encoding="utf-8" ?>
     <D:multistatus xmlns:D="DAV:">
       <D:response>
         <D:href>/container/</D:href>
         <D:propstat>
           <D:prop xmlns:R="http://ns.example.com/boxschema/">
             <R:bigbox><R:BoxType>Box type A</R:BoxType></R:bigbox>
             <R:author><R:Name>Hadrian</R:Name></R:author>
             <D:creationdate>1997-12-01T17:42:21-08:00</D:creationdate>
             <D:displayname>Example collection</D:displayname>
             <D:resourcetype><D:collection/></D:resourcetype>
             <D:supportedlock>
               <D:lockentry>
                 <D:lockscope><D:exclusive/></D:lockscope>
                 <D:locktype><D:write/></D:locktype>
               </D:lockentry>
               <D:lockentry>
                 <D:lockscope><D:shared/></D:lockscope>
                 <D:locktype><D:write/></D:locktype>
               </D:lockentry>
             </D:supportedlock>
           </D:prop>
           <D:status>HTTP/1.1 200 OK</D:status>
         </D:propstat>
       </D:response>
       <D:response>
         <D:href>/container/front.html</D:href>
         <D:propstat>
           <D:prop xmlns:R="http://ns.example.com/boxschema/">
             <R:bigbox><R:BoxType>Box type B</R:BoxType>
             </R:bigbox>
             <D:creationdate>1997-12-01T18:27:21-08:00</D:creationdate>
             <D:displayname>Example HTML resource</D:displayname>
             <D:getcontentlength>4525</D:getcontentlength>
             <D:getcontenttype>text/html</D:getcontenttype>
             <D:getetag>"zzyzx"</D:getetag>
             <D:getlastmodified
               >Mon, 12 Jan 1998 09:25:56 GMT</D:getlastmodified>
             <D:resourcetype/>
             <D:supportedlock>
               <D:lockentry>
                 <D:lockscope><D:exclusive/></D:lockscope>
                 <D:locktype><D:write/></D:locktype>
               </D:lockentry>
               <D:lockentry>
                 <D:lockscope><D:shared/></D:lockscope>
                 <D:locktype><D:write/></D:locktype>
               </D:lockentry>
             </D:supportedlock>
           </D:prop>
           <D:status>HTTP/1.1 200 OK</D:status>
         </D:propstat>
       </D:response>
     </D:multistatus>"#;

    let mut rdr = Reader::new(events_of(src)).unwrap();
    let got = rdr.find::<Multistatus<Core>>().unwrap();

    let lock_entries = vec![
        LockEntry { lockscope: LockScope::Exclusive, locktype: LockType::Write },
        LockEntry { lockscope: LockScope::Shared, locktype: LockType::Write },
    ];
    assert_eq!(
        got,
        Multistatus {
            extension: None,
            responses: vec![
                Response {
                    status_or_propstat: StatusOrPropstat::PropStat(
                        Href("/container/".into()),
                        vec![PropStat {
                            prop: AnyProp(vec![
                                AnyProperty::Value(DavProperty::CreationDate(DateTimeOffset {
                                    unix_secs: 881026941,
                                    nanos: 0,
                                    offset_secs: -8 * 3600,
                                })),
                                AnyProperty::Value(DavProperty::DisplayName("Example collection".into())),
                                AnyProperty::Value(DavProperty::ResourceType(vec![DavResourceType::Collection])),
                                AnyProperty::Value(DavProperty::SupportedLock(lock_entries.clone())),
                            ]),
                            status: Status(200),
                            error: None,
                            responsedescription: None,
                        }],
                    ),
                    error: None,
                    responsedescription: None,
                    location: None,
                },
                Response {
                    status_or_propstat: StatusOrPropstat::PropStat(
                        Href("/container/front.html".into()),
                        vec![PropStat {
                            prop: AnyProp(vec![
                                AnyProperty::Value(DavProperty::CreationDate(DateTimeOffset {
                                    unix_secs: 881029641,
                                    nanos: 0,
                                    offset_secs: -8 * 3600,
                                })),
                                AnyProperty::Value(DavProperty::DisplayName("Example HTML resource".into())),
                                AnyProperty::Value(DavProperty::GetContentLength(4525)),
                                AnyProperty::Value(DavProperty::GetContentType("text/html".into())),
                                AnyProperty::Value(DavProperty::GetEtag(r#""zzyzx""#.into())),
                                AnyProperty::Value(DavProperty::GetLastModified(DateTimeOffset {
                                    unix_secs: 884597156,
                                    nanos: 0,
                                    offset_secs: 0,
                                })),
                                // An empty resource type reads as the name of the property.
                                AnyProperty::Request(DavPropertyRequest::ResourceType),
                                AnyProperty::Value(DavProperty::SupportedLock(lock_entries.clone())),
                            ]),
                            status: Status(200),
                            error: None,
                            responsedescription: None,
                        }],
                    ),
                    error: None,
                    responsedescription: None,
                    location: None,
                },
            ],
            responsedescription: None,
        }
    );
}

#[test]
fn response_with_status_for_several_hrefs() {
    let src = r#"<D:response xmlns:D="DAV:">
        <D:href>/a</D:href>
        <D:href>/b</D:href>
        <D:status>HTTP/1.1 423 Locked</D:status>
        <D:error><D:lock-token-submitted/></D:error>
    </D:response>"#;
    let got = deserialize::<Response<Core>>(src);
    assert_eq!(
        got,
        Response {
            status_or_propstat: StatusOrPropstat::Status(vec![Href("/a".into()), Href("/b".into())], Status(423)),
            error: Some(DavError(vec![DavViolation::LockTokenSubmitted(vec![])])),
            responsedescription: None,
            location: None,
        }
    );
}

#[test]
fn response_with_status_and_propstat_is_invalid() {
    let src = r#"<D:response xmlns:D="DAV:">
        <D:href>/a</D:href>
        <D:status>HTTP/1.1 200 OK</D:status>
        <D:propstat><D:prop/><D:status>HTTP/1.1 200 OK</D:status></D:propstat>
    </D:response>"#;
    assert_eq!(try_deserialize::<Response<Core>>(src), Err(ParsingError::InvalidValue));
}

#[test]
fn response_without_href_lacks_a_child() {
    let src = r#"<D:response xmlns:D="DAV:"><D:status>HTTP/1.1 200 OK</D:status></D:response>"#;
    assert_eq!(try_deserialize::<Response<Core>>(src), Err(ParsingError::MissingChild));
}

#[test]
fn propstat_without_status_lacks_a_child() {
    let src = r#"<D:propstat xmlns:D="DAV:"><D:prop><D:getetag/></D:prop></D:propstat>"#;
    assert_eq!(try_deserialize::<PropStat<Core>>(src), Err(ParsingError::MissingChild));
}

#[test]
fn property_with_bad_length_or_date() {
    let src = r#"<D:getcontentlength xmlns:D="DAV:">many</D:getcontentlength>"#;
    assert_eq!(try_deserialize::<DavProperty<Core>>(src), Err(ParsingError::Int));
    let src = r#"<D:creationdate xmlns:D="DAV:">yesterday</D:creationdate>"#;
    assert_eq!(try_deserialize::<DavProperty<Core>>(src), Err(ParsingError::Chrono));
}

#[test]
fn violation_codes() {
    let src = r#"<D:error xmlns:D="DAV:">
        <D:lock-token-matches-request-uri/>
        <D:no-conflicting-lock><D:href>/x</D:href></D:no-conflicting-lock>
        <D:no-external-entities/>
        <D:preserved-live-properties/>
        <D:propfind-finite-depth/>
        <D:cannot-modify-protected-property/>
        <D:something-else/>
    </D:error>"#;
    assert_eq!(
        deserialize::<DavError<Core>>(src),
        DavError(vec![
            DavViolation::LockTokenMatchesRequestUri,
            DavViolation::NoConflictingLock(vec![Href("/x".into())]),
            DavViolation::NoExternalEntities,
            DavViolation::PreservedLiveProperties,
            DavViolation::PropfindFiniteDepth,
            DavViolation::CannotModifyProtectedProperty,
        ])
    );
}

#[test]
fn syncdecoder_sync_collection() {
    {
        let expected = SyncCollection::<All> {
            sync_token: SyncTokenRequest::IncrementalSync("http://example.com/ns/sync/1232".into()),
            sync_level: SyncLevel::One,
            limit: Some(Limit(NResults(100))),
            prop: PropName(vec![DavPropertyRequest::GetEtag]),
        };
        let src = r#"<D:sync-collection xmlns:D="DAV:">
                <D:sync-token>http://example.com/ns/sync/1232</D:sync-token>
                <D:sync-level>1</D:sync-level>
                <D:limit>
                    <D:nresults>100</D:nresults>
                </D:limit>
                <D:prop>
                    <D:getetag/>
                </D:prop>
            </D:sync-collection>"#;
        let got = deserialize::<SyncCollection<All>>(src);
        assert_eq!(got, expected);
    }

    {
        let expected = SyncCollection::<All> {
            sync_token: SyncTokenRequest::InitialSync,
            sync_level: SyncLevel::Infinite,
            limit: None,
            prop: PropName(vec![DavPropertyRequest::GetEtag]),
        };
        let src = r#"<D:sync-collection xmlns:D="DAV:">
                <D:sync-token/>
                <D:sync-level>infinite</D:sync-level>
                <D:prop>
                    <D:getetag/>
                </D:prop>
            </D:sync-collection>"#;
        let got = deserialize::<SyncCollection<All>>(src);
        assert_eq!(got, expected);
    }
}

#[test]
fn sync_collection_without_level_lacks_a_child() {
    let src = r#"<D:sync-collection xmlns:D="DAV:"><D:sync-token/><D:prop><D:getetag/></D:prop></D:sync-collection>"#;
    assert_eq!(try_deserialize::<SyncCollection<Core>>(src), Err(ParsingError::MissingChild));
}

#[test]
fn card_property_names() {
    let src = r#"<D:prop xmlns:D="DAV:" xmlns:C="urn:ietf:params:xml:ns:carddav">
        <C:addressbook-description/>
        <C:supported-address-data/>
        <C:max-resource-size/>
        <C:addressbook-home-set/>
        <C:principal-address/>
        <C:supported-collation-set/>
        <C:address-data content-type="text/vcard" version="4.0">
            <C:prop name="EMAIL"/>
            <C:prop name="item1.TEL" novalue="yes"/>
        </C:address-data>
        <C:address-data><C:allprop/></C:address-data>
        <D:owner/>
        <D:displayname/>
    </D:prop>"#;
    let got = deserialize::<PropName<All>>(src);
    assert_eq!(
        got,
        PropName(vec![
            DavPropertyRequest::Extension(AllPropertyRequest::Card(CardPropertyRequest::AddressbookDescription)),
            DavPropertyRequest::Extension(AllPropertyRequest::Card(CardPropertyRequest::SupportedAddressData)),
            DavPropertyRequest::Extension(AllPropertyRequest::Card(CardPropertyRequest::MaxResourceSize)),
            DavPropertyRequest::Extension(AllPropertyRequest::Card(CardPropertyRequest::AddressbookHomeSet)),
            DavPropertyRequest::Extension(AllPropertyRequest::Card(CardPropertyRequest::PrincipalAddress)),
            DavPropertyRequest::Extension(AllPropertyRequest::Card(CardPropertyRequest::SupportedCollationSet)),
            DavPropertyRequest::Extension(AllPropertyRequest::Card(CardPropertyRequest::AddressData(
                AddressDataRequest {
                    prop_kind: Some(PropKind::Prop(vec![
                        CardProp {
                            name: PropertyName { group: None, name: "EMAIL".into() },
                            novalue: WithDefault::Default,
                        },
                        CardProp {
                            name: PropertyName { group: Some("item1".into()), name: "TEL".into() },
                            novalue: WithDefault::Value(NoValue::Yes),
                        },
                    ])),
                    content_type: WithDefault::Value(ContentType("text/vcard".into())),
                    version: WithDefault::Value(Version("4.0".into())),
                }
            ))),
            DavPropertyRequest::Extension(AllPropertyRequest::Card(CardPropertyRequest::AddressData(
                AddressDataRequest {
                    prop_kind: Some(PropKind::AllProp),
                    content_type: WithDefault::Default,
                    version: WithDefault::Default,
                }
            ))),
            DavPropertyRequest::Extension(AllPropertyRequest::Acl(AclPropertyRequest::Owner)),
            DavPropertyRequest::DisplayName,
        ])
    );
}

#[test]
fn card_prop_errors() {
    let src = r#"<C:prop xmlns:C="urn:ietf:params:xml:ns:carddav"/>"#;
    assert_eq!(try_deserialize::<CardProp>(src), Err(ParsingError::MissingAttribute));
    let src = r#"<C:prop xmlns:C="urn:ietf:params:xml:ns:carddav" name="FN" novalue="maybe"/>"#;
    assert_eq!(try_deserialize::<CardProp>(src), Err(ParsingError::InvalidValue));
}

#[test]
fn card_resource_type_and_report_names() {
    let src = r#"<D:collection xmlns:D="DAV:"/>"#;
    assert_eq!(deserialize::<DavResourceType<All>>(src), DavResourceType::Collection);
    let src = r#"<C:addressbook xmlns:C="urn:ietf:params:xml:ns:carddav"/>"#;
    assert_eq!(
        deserialize::<DavResourceType<All>>(src),
        DavResourceType::Extension(AllResourceType::Card(CardResourceType::Addressbook))
    );
    let src = r#"<D:principal xmlns:D="DAV:"/>"#;
    assert_eq!(
        deserialize::<DavResourceType<All>>(src),
        DavResourceType::Extension(AllResourceType::Acl(AclResourceType::Principal))
    );
    let src = r#"<C:addressbook-multiget xmlns:C="urn:ietf:params:xml:ns:carddav"/>"#;
    assert_eq!(deserialize::<CardReportTypeName>(src), CardReportTypeName::Multiget);
}

#[test]
fn all_dialect_property_values() {
    let src = r#"<D:prop xmlns:D="DAV:" xmlns:C="urn:ietf:params:xml:ns:carddav">
        <C:max-resource-size>1024</C:max-resource-size>
        <D:owner><D:href>/principals/alice/</D:href></D:owner>
        <D:supported-report-set>
            <D:supported-report><D:report><C:addressbook-query/></D:report></D:supported-report>
            <D:supported-report><D:report><D:expand-property/></D:report></D:supported-report>
        </D:supported-report-set>
        <D:getetag>"x"</D:getetag>
    </D:prop>"#;
    let got = deserialize::<PropValue<All>>(src);
    assert_eq!(
        got,
        PropValue(vec![
            DavProperty::Extension(AllProperty::Card(aerogramme_core::dav::cardtypes::Property::MaxResourceSize(1024))),
            DavProperty::Extension(AllProperty::Acl(AclProperty::Owner(Href("/principals/alice/".into())))),
            DavProperty::Extension(AllProperty::Vers(VersProperty::SupportedReportSet(vec![
                SupportedReport(ReportName::Extension(AllReportTypeName::Card(CardReportTypeName::Query))),
                SupportedReport(ReportName::ExpandProperty),
            ]))),
            DavProperty::GetEtag("\"x\"".into()),
        ])
    );
}

#[test]
fn versioning_reports() {
    let src = r#"<D:version-tree xmlns:D="DAV:"/>"#;
    assert_eq!(deserialize::<Report<Core>>(src), Report::VersionTree);
    let src = r#"<D:expand-property xmlns:D="DAV:"/>"#;
    assert_eq!(deserialize::<Report<Core>>(src), Report::ExpandProperty);
    let src = r#"<D:report xmlns:D="DAV:"></D:report>"#;
    assert_eq!(try_deserialize::<ReportName<All>>(src), Err(ParsingError::MissingChild));
    let src = r#"<D:report xmlns:D="DAV:"><D:version-tree/></D:report>"#;
    assert_eq!(deserialize::<ReportName<All>>(src), ReportName::VersionTree);
}
