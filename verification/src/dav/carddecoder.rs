//! Reading the CardDAV elements (RFC 6352).
use vstd::prelude::*;

use super::acldecoder::{find_close, find_close_spec};
use super::cardtypes::{
    collation_view_of, property_name_of, AddressDataPayload, AddressDataPayloadView, AddressDataRequest,
    AddressDataRequestView, AddressDataType, AddressDataTypeView, CardProp, CardPropView, Collation, CollationView,
    ContentType,
    NoValue, PropKind, PropKindView, Property, PropertyName, PropertyRequest, PropertyRequestView, PropertyView,
    ReportTypeName, ResourceType, SupportedCollation, Version, Violation, ViolationView, filter_test_of,
    text_match_type_of, yes_no_of, AddressbookMultiget, AddressbookQuery, AddressbookSelector, Filter, FilterTest,
    FilterView, Limit, NegateCondition, ParamFilter, ParamFilterMatch, ParamFilterMatchView, ParamFilterView,
    PropFilter, PropFilterRules, PropFilterRulesView, PropFilterView, PropertyParameterName, ReportType,
    TextMatch, TextMatchType, TextMatchView,
};
use super::coredecoder::PropertyRequestView as DavPropertyRequestView;
use super::types::{Extension, PropName};
use super::coredecoder::{collect_close, collect_close_spec, open_first, open_first_spec};
use super::types::Href;
use super::error::ParsingError;
use crate::text::{parse_u64, trim, trimmed, u64_of};
use super::xml::{
    atoms_spec, close_spec, collect_spec, keys_view, parent_has_child_spec, opt_view, lemma_skip, maybe_find_spec, maybe_push_spec, maybe_read_spec, open_spec,
    prev_attr_spec, skip_spec, tag_string_spec, views, QRead, RState, Reader, WithDefault, XmlEvent, CARD_URN,
    DAV_URN,
};

verus! {

/// A yes/no attribute as `NoValue`: absent is the default, any other text
/// is `InvalidValue`.
pub open spec fn novalue_attr(a: Option<Seq<char>>) -> Result<WithDefault<NoValue>, ParsingError> {
    match a {
        None => Ok(WithDefault::Default),
        Some(t) => if t == "yes"@ {
            Ok(WithDefault::Value(NoValue::Yes))
        } else if t == "no"@ {
            Ok(WithDefault::Value(NoValue::No))
        } else {
            Err(ParsingError::InvalidValue)
        },
    }
}

/// `<C:prop name=".." novalue=".."/>`: a vCard property to return. The
/// name is required.
pub open spec fn card_prop_spec(evs: Seq<XmlEvent>, st: RState) -> (Result<CardPropView, ParsingError>, RState) {
    match open_spec(evs, st, CARD_URN@, "prop"@) {
        (Err(e), s) => (Err(e), s),
        (Ok(_), s1) => match prev_attr_spec(evs, s1, "name"@) {
            None => (Err(ParsingError::MissingAttribute), s1),
            Some(n) => match novalue_attr(prev_attr_spec(evs, s1, "novalue"@)) {
                Err(e) => (Err(e), s1),
                Ok(nv) => match close_spec(evs, s1) {
                    (Err(e), s) => (Err(e), s),
                    (Ok(_), s2) => (Ok(CardPropView { name: property_name_of(n), novalue: nv }), s2),
                },
            },
        },
    }
}

impl QRead for CardProp {
    open spec fn qread_spec(evs: Seq<XmlEvent>, st: RState) -> (Result<CardPropView, ParsingError>, RState) {
        card_prop_spec(evs, st)
    }

    fn qread(xml: &mut Reader) -> (r: Result<Self, ParsingError>) {
        xml.open(CARD_URN, "prop")?;
        let name = match xml.prev_attr("name") {
            None => return Err(ParsingError::MissingAttribute),
            Some(n) => PropertyName::parse(n.as_str()),
        };
        let novalue = match xml.prev_attr("novalue") {
            None => WithDefault::Default,
            Some(t) => match NoValue::parse(t.as_str()) {
                Some(v) => WithDefault::Value(v),
                None => return Err(ParsingError::InvalidValue),
            },
        };
        proof {
            reveal_strlit("yes");
            reveal_strlit("no");
        }
        xml.close()?;
        Ok(CardProp { name, novalue })
    }
}

/// The vCard properties to return, from the current event on, after
/// `acc`: `<C:allprop/>` wherever it comes, else the requested properties
/// up to the closing tag; none at all is `Recoverable`.
pub open spec fn prop_kind_loop(evs: Seq<XmlEvent>, st: RState, acc: Seq<CardPropView>) -> (
    Result<PropKindView, ParsingError>,
    RState,
)
    decreases evs.len() - st.pos,
{
    match open_spec(evs, st, CARD_URN@, "allprop"@) {
        (Ok(_), s1) => match close_spec(evs, s1) {
            (Ok(_), s2) => (Ok(PropKindView::AllProp), s2),
            (Err(e), s) => (Err(e), s),
        },
        (Err(ParsingError::Recoverable), _) => match maybe_push_spec::<CardProp>(evs, st, acc, false) {
            (Err(e), s, _, _) => (Err(e), s),
            (Ok(_), s1, acc1, dirty) => if dirty {
                if st.pos < s1.pos <= evs.len() {
                    prop_kind_loop(evs, s1, acc1)
                } else {
                    (Err(ParsingError::Eof), s1)
                }
            } else if 0 <= s1.pos < evs.len() {
                if evs[s1.pos] is End {
                    if acc1.len() == 0 {
                        (Err(ParsingError::Recoverable), s1)
                    } else {
                        (Ok(PropKindView::Prop(acc1)), s1)
                    }
                } else {
                    match skip_spec(evs, s1) {
                        (Err(e), s2) => (Err(e), s2),
                        (Ok(_), s2) => if st.pos < s2.pos <= evs.len() {
                            prop_kind_loop(evs, s2, acc1)
                        } else {
                            (Err(ParsingError::Eof), s2)
                        },
                    }
                }
            } else {
                (Err(ParsingError::Eof), s1)
            },
        },
        (Err(e), s) => (Err(e), s),
    }
}

impl QRead for PropKind {
    open spec fn qread_spec(evs: Seq<XmlEvent>, st: RState) -> (Result<PropKindView, ParsingError>, RState) {
        prop_kind_loop(evs, st, Seq::empty())
    }

    #[verifier::spinoff_prover]
    #[verifier::rlimit(40)]
    fn qread(xml: &mut Reader) -> (r: Result<Self, ParsingError>) {
        let ghost evs = xml.evs();
        let ghost st0 = xml.st();
        let mut prop: Vec<CardProp> = Vec::new();
        proof {
            assert(views(prop@) =~= Seq::<CardPropView>::empty());
        }
        loop
            invariant
                xml.wf(),
                xml.evs() == evs,
                evs == old(xml).evs(),
                st0 == old(xml).st(),
                xml.st().pos >= st0.pos,
                prop@.len() > 0 ==> xml.st().pos > st0.pos,
                prop_kind_loop(evs, xml.st(), views(prop@)) == prop_kind_loop(evs, st0, Seq::empty()),
            decreases evs.len() - xml.st().pos,
        {
            let ghost here = xml.st();
            if xml.maybe_open(CARD_URN, "allprop")? {
                xml.close()?;
                return Ok(PropKind::AllProp);
            }
            let mut dirty = false;
            xml.maybe_push(&mut prop, &mut dirty)?;
            if !dirty {
                if let XmlEvent::End(_) = xml.peek() {
                    if prop.len() == 0 {
                        return Err(ParsingError::Recoverable);
                    }
                    return Ok(PropKind::Prop(prop));
                }
                proof {
                    lemma_skip(evs, xml.st());
                }
                xml.skip()?;
            }
            assert(here.pos < xml.st().pos);
        }
    }
}

/// An attribute holding free text, as a value with a default.
pub open spec fn text_attr(a: Option<Seq<char>>) -> WithDefault<Seq<char>> {
    match a {
        None => WithDefault::Default,
        Some(t) => WithDefault::Value(t),
    }
}

/// `<C:address-data>` in a request: its media type and version
/// attributes, and which properties to return.
pub open spec fn address_data_request_spec(evs: Seq<XmlEvent>, st: RState) -> (
    Result<AddressDataRequestView, ParsingError>,
    RState,
) {
    match open_spec(evs, st, CARD_URN@, "address-data"@) {
        (Err(e), s) => (Err(e), s),
        (Ok(_), s1) => match maybe_find_spec::<PropKind>(evs, s1) {
            (Err(e), s) => (Err(e), s),
            (Ok(k), s2) => match close_spec(evs, s2) {
                (Err(e), s) => (Err(e), s),
                (Ok(_), s3) => (
                    Ok(
                        AddressDataRequestView {
                            prop_kind: k,
                            content_type: text_attr(prev_attr_spec(evs, s1, "content-type"@)),
                            version: text_attr(prev_attr_spec(evs, s1, "version"@)),
                        },
                    ),
                    s3,
                ),
            },
        },
    }
}

impl QRead for AddressDataRequest {
    open spec fn qread_spec(evs: Seq<XmlEvent>, st: RState) -> (Result<AddressDataRequestView, ParsingError>, RState) {
        address_data_request_spec(evs, st)
    }

    fn qread(xml: &mut Reader) -> (r: Result<Self, ParsingError>) {
        xml.open(CARD_URN, "address-data")?;
        let content_type = WithDefault::from_opt(
            match xml.prev_attr("content-type") {
                Some(t) => Some(ContentType(t)),
                None => None,
            },
        );
        let version = WithDefault::from_opt(
            match xml.prev_attr("version") {
                Some(t) => Some(Version(t)),
                None => None,
            },
        );
        let prop_kind = xml.maybe_find::<PropKind>()?;
        xml.close()?;
        Ok(AddressDataRequest { prop_kind, content_type, version })
    }
}

/// The CardDAV property names without content, in the order they are
/// tried.
pub open spec fn card_property_names() -> Seq<Seq<char>> {
    seq![
        "addressbook-description"@,
        "supported-address-data"@,
        "max-resource-size"@,
        "addressbook-home-set"@,
        "principal-address"@,
        "supported-collation-set"@,
    ]
}

/// The property name at a position of `card_property_names`.
pub open spec fn card_property_at(i: int) -> PropertyRequestView {
    if i == 0 {
        PropertyRequestView::AddressbookDescription
    } else if i == 1 {
        PropertyRequestView::SupportedAddressData
    } else if i == 2 {
        PropertyRequestView::MaxResourceSize
    } else if i == 3 {
        PropertyRequestView::AddressbookHomeSet
    } else if i == 4 {
        PropertyRequestView::PrincipalAddress
    } else {
        PropertyRequestView::SupportedCollationSet
    }
}

/// A CardDAV property name: the first name without content that is the
/// current element, else an address-data request; neither is
/// `Recoverable`.
pub open spec fn card_property_request_spec(evs: Seq<XmlEvent>, st: RState) -> (
    Result<PropertyRequestView, ParsingError>,
    RState,
) {
    match atoms_spec(evs, st, CARD_URN@, card_property_names(), 0) {
        (Ok(i), s) => (Ok(card_property_at(i)), s),
        (Err(ParsingError::Recoverable), s) => match maybe_read_spec::<AddressDataRequest>(evs, s, None, false) {
            (Err(e), s1, _, _) => (Err(e), s1),
            (Ok(_), s1, Some(a), _) => (Ok(PropertyRequestView::AddressData(a)), s1),
            (Ok(_), s1, None, _) => (Err(ParsingError::Recoverable), s1),
        },
        (Err(e), s) => (Err(e), s),
    }
}

impl QRead for PropertyRequest {
    open spec fn qread_spec(evs: Seq<XmlEvent>, st: RState) -> (Result<PropertyRequestView, ParsingError>, RState) {
        card_property_request_spec(evs, st)
    }

    fn qread(xml: &mut Reader) -> (r: Result<Self, ParsingError>) {
        let keys: Vec<&str> = vec![
            "addressbook-description",
            "supported-address-data",
            "max-resource-size",
            "addressbook-home-set",
            "principal-address",
            "supported-collation-set",
        ];
        assert(keys_view(keys@) =~= card_property_names());
        match xml.read_atom(CARD_URN, &keys) {
            Ok(i) => Ok(
                if i == 0 {
                    PropertyRequest::AddressbookDescription
                } else if i == 1 {
                    PropertyRequest::SupportedAddressData
                } else if i == 2 {
                    PropertyRequest::MaxResourceSize
                } else if i == 3 {
                    PropertyRequest::AddressbookHomeSet
                } else if i == 4 {
                    PropertyRequest::PrincipalAddress
                } else {
                    PropertyRequest::SupportedCollationSet
                },
            ),
            Err(ParsingError::Recoverable) => {
                let mut dirty = false;
                let mut m_cdr: Option<AddressDataRequest> = None;
                xml.maybe_read(&mut m_cdr, &mut dirty)?;
                match m_cdr {
                    Some(a) => Ok(PropertyRequest::AddressData(a)),
                    None => Err(ParsingError::Recoverable),
                }
            },
            Err(e) => Err(e),
        }
    }
}

/// The addressbook resource type.
pub open spec fn card_resource_type_spec(evs: Seq<XmlEvent>, st: RState) -> (Result<ResourceType, ParsingError>, RState) {
    match atoms_spec(evs, st, CARD_URN@, seq!["addressbook"@], 0) {
        (Ok(_), s) => (Ok(ResourceType::Addressbook), s),
        (Err(e), s) => (Err(e), s),
    }
}

impl QRead for ResourceType {
    open spec fn qread_spec(evs: Seq<XmlEvent>, st: RState) -> (Result<ResourceType, ParsingError>, RState) {
        card_resource_type_spec(evs, st)
    }

    fn qread(xml: &mut Reader) -> (r: Result<Self, ParsingError>) {
        let keys: Vec<&str> = vec!["addressbook"];
        assert(keys_view(keys@) =~= seq!["addressbook"@]);
        xml.read_atom(CARD_URN, &keys)?;
        Ok(ResourceType::Addressbook)
    }
}

/// The name of a CardDAV report.
pub open spec fn card_report_name_spec(evs: Seq<XmlEvent>, st: RState) -> (Result<ReportTypeName, ParsingError>, RState) {
    match atoms_spec(evs, st, CARD_URN@, seq!["addressbook-query"@, "addressbook-multiget"@], 0) {
        (Ok(i), s) => (Ok(if i == 0 { ReportTypeName::Query } else { ReportTypeName::Multiget }), s),
        (Err(e), s) => (Err(e), s),
    }
}

impl QRead for ReportTypeName {
    open spec fn qread_spec(evs: Seq<XmlEvent>, st: RState) -> (Result<ReportTypeName, ParsingError>, RState) {
        card_report_name_spec(evs, st)
    }

    fn qread(xml: &mut Reader) -> (r: Result<Self, ParsingError>) {
        let keys: Vec<&str> = vec!["addressbook-query", "addressbook-multiget"];
        assert(keys_view(keys@) =~= seq!["addressbook-query"@, "addressbook-multiget"@]);
        let i = xml.read_atom(CARD_URN, &keys)?;
        Ok(if i == 0 { ReportTypeName::Query } else { ReportTypeName::Multiget })
    }
}

/// Reads the media type and version attributes of the element just
/// opened.
fn type_attrs(xml: &Reader) -> (r: (WithDefault<ContentType>, WithDefault<Version>))
    requires
        xml.wf(),
    ensures
        r.0@ == text_attr(prev_attr_spec(xml.evs(), xml.st(), "content-type"@)),
        r.1@ == text_attr(prev_attr_spec(xml.evs(), xml.st(), "version"@)),
{
    let content_type = WithDefault::from_opt(
        match xml.prev_attr("content-type") {
            Some(t) => Some(ContentType(t)),
            None => None,
        },
    );
    let version = WithDefault::from_opt(
        match xml.prev_attr("version") {
            Some(t) => Some(Version(t)),
            None => None,
        },
    );
    (content_type, version)
}

/// `<C:address-data-type>`: a media type and version the server accepts.
pub open spec fn address_data_type_spec(evs: Seq<XmlEvent>, st: RState) -> (
    Result<AddressDataTypeView, ParsingError>,
    RState,
) {
    match open_spec(evs, st, CARD_URN@, "address-data-type"@) {
        (Err(e), s) => (Err(e), s),
        (Ok(_), s1) => match close_spec(evs, s1) {
            (Err(e), s) => (Err(e), s),
            (Ok(_), s2) => (
                Ok(
                    AddressDataTypeView {
                        content_type: text_attr(prev_attr_spec(evs, s1, "content-type"@)),
                        version: text_attr(prev_attr_spec(evs, s1, "version"@)),
                    },
                ),
                s2,
            ),
        },
    }
}

impl QRead for AddressDataType {
    open spec fn qread_spec(evs: Seq<XmlEvent>, st: RState) -> (Result<AddressDataTypeView, ParsingError>, RState) {
        address_data_type_spec(evs, st)
    }

    fn qread(xml: &mut Reader) -> (r: Result<Self, ParsingError>) {
        xml.open(CARD_URN, "address-data-type")?;
        let (content_type, version) = type_attrs(xml);
        xml.close()?;
        Ok(AddressDataType { content_type, version })
    }
}

/// `<C:supported-collation>`: the collation its text names.
pub open spec fn supported_collation_spec(evs: Seq<XmlEvent>, st: RState) -> (Result<CollationView, ParsingError>, RState) {
    match open_spec(evs, st, CARD_URN@, "supported-collation"@) {
        (Err(e), s) => (Err(e), s),
        (Ok(_), s1) => match tag_string_spec(evs, s1) {
            (Err(e), s) => (Err(e), s),
            (Ok(t), s2) => match close_spec(evs, s2) {
                (Err(e), s) => (Err(e), s),
                (Ok(_), s3) => (Ok(collation_view_of(t)), s3),
            },
        },
    }
}

impl QRead for SupportedCollation {
    open spec fn qread_spec(evs: Seq<XmlEvent>, st: RState) -> (Result<CollationView, ParsingError>, RState) {
        supported_collation_spec(evs, st)
    }

    fn qread(xml: &mut Reader) -> (r: Result<Self, ParsingError>) {
        xml.open(CARD_URN, "supported-collation")?;
        let col = Collation::new(xml.tag_string()?);
        xml.close()?;
        Ok(SupportedCollation(col))
    }
}

/// `<C:address-data>` in a response: the vCard data it holds, with its
/// media type and version attributes.
pub open spec fn address_data_payload_spec(evs: Seq<XmlEvent>, st: RState) -> (
    Result<AddressDataPayloadView, ParsingError>,
    RState,
) {
    match open_spec(evs, st, CARD_URN@, "address-data"@) {
        (Err(e), s) => (Err(e), s),
        (Ok(_), s1) => match tag_string_spec(evs, s1) {
            (Err(e), s) => (Err(e), s),
            (Ok(t), s2) => match close_spec(evs, s2) {
                (Err(e), s) => (Err(e), s),
                (Ok(_), s3) => (
                    Ok(
                        AddressDataPayloadView {
                            payload: t,
                            content_type: text_attr(prev_attr_spec(evs, s1, "content-type"@)),
                            version: text_attr(prev_attr_spec(evs, s1, "version"@)),
                        },
                    ),
                    s3,
                ),
            },
        },
    }
}

impl QRead for AddressDataPayload {
    open spec fn qread_spec(evs: Seq<XmlEvent>, st: RState) -> (Result<AddressDataPayloadView, ParsingError>, RState) {
        address_data_payload_spec(evs, st)
    }

    fn qread(xml: &mut Reader) -> (r: Result<Self, ParsingError>) {
        xml.open(CARD_URN, "address-data")?;
        let (content_type, version) = type_attrs(xml);
        let payload = xml.tag_string()?;
        xml.close()?;
        Ok(AddressDataPayload { payload, content_type, version })
    }
}

/// After the `i`-th CardDAV property element of `card_property_names` is
/// opened with an opening tag: its value, then the element closed. A size
/// that does not read fails with `Int` before the element closes.
pub open spec fn card_value_spec(evs: Seq<XmlEvent>, st: RState, i: int) -> (Result<PropertyView, ParsingError>, RState) {
    if i == 0 {
        match tag_string_spec(evs, st) {
            (Err(e), s) => (Err(e), s),
            (Ok(t), s2) => match close_spec(evs, s2) {
                (Err(e), s) => (Err(e), s),
                (Ok(_), s3) => (
                    Ok(PropertyView::AddressbookDescription { lang: prev_attr_spec(evs, st, "xml:lang"@), text: t }),
                    s3,
                ),
            },
        }
    } else if i == 1 {
        match collect_close_spec::<AddressDataType>(evs, st) {
            (Err(e), s) => (Err(e), s),
            (Ok(v), s) => (Ok(PropertyView::SupportedAddressData(v)), s),
        }
    } else if i == 2 {
        match tag_string_spec(evs, st) {
            (Err(e), s) => (Err(e), s),
            (Ok(t), s2) => match u64_of(t) {
                None => (Err(ParsingError::Int), s2),
                Some(n) => match close_spec(evs, s2) {
                    (Err(e), s) => (Err(e), s),
                    (Ok(_), s3) => (Ok(PropertyView::MaxResourceSize(n)), s3),
                },
            },
        }
    } else if i == 3 || i == 4 {
        match find_close_spec::<Href>(evs, st) {
            (Err(e), s) => (Err(e), s),
            (Ok(h), s) => (
                Ok(if i == 3 { PropertyView::AddressbookHomeSet(h) } else { PropertyView::PrincipalAddress(h) }),
                s,
            ),
        }
    } else {
        match collect_close_spec::<SupportedCollation>(evs, st) {
            (Err(e), s) => (Err(e), s),
            (Ok(v), s) => (Ok(PropertyView::SupportedCollationSet(v)), s),
        }
    }
}

/// A CardDAV property value: the first property element of
/// `card_property_names` that is the current one with an opening tag,
/// else address data; neither is `Recoverable`.
pub open spec fn card_property_spec(evs: Seq<XmlEvent>, st: RState) -> (Result<PropertyView, ParsingError>, RState) {
    match open_first_spec(evs, st, CARD_URN@, card_property_names(), 0) {
        (Ok(i), s1) => card_value_spec(evs, s1, i),
        (Err(ParsingError::Recoverable), _) => match maybe_read_spec::<AddressDataPayload>(evs, st, None, false) {
            (Err(e), s, _, _) => (Err(e), s),
            (Ok(_), s, Some(a), _) => (Ok(PropertyView::AddressData(a)), s),
            (Ok(_), s, None, _) => (Err(ParsingError::Recoverable), s),
        },
        (Err(e), s) => (Err(e), s),
    }
}

/// Reads the value of the `i`-th CardDAV property; see `card_value_spec`.
fn read_card_value(xml: &mut Reader, i: usize) -> (r: Result<Property, ParsingError>)
    requires
        old(xml).wf(),
        i < 6,
    ensures
        final(xml).wf(),
        final(xml).evs() == old(xml).evs(),
        match r {
            Ok(v) => card_value_spec(old(xml).evs(), old(xml).st(), i as int).0 == Ok::<PropertyView, ParsingError>(v@),
            Err(e) => card_value_spec(old(xml).evs(), old(xml).st(), i as int).0 == Err::<PropertyView, ParsingError>(e),
        },
        final(xml).st() == card_value_spec(old(xml).evs(), old(xml).st(), i as int).1,
        final(xml).st().pos >= old(xml).st().pos,
{
    if i == 0 {
        let lang = xml.prev_attr("xml:lang");
        let text = xml.tag_string()?;
        xml.close()?;
        Ok(Property::AddressbookDescription { lang, text })
    } else if i == 1 {
        let types = collect_close::<AddressDataType>(xml)?;
        Ok(Property::SupportedAddressData(types))
    } else if i == 2 {
        let text = xml.tag_string()?;
        let sz = match parse_u64(text.as_str()) {
            None => return Err(ParsingError::Int),
            Some(n) => n,
        };
        xml.close()?;
        Ok(Property::MaxResourceSize(sz))
    } else if i == 3 {
        let href = find_close::<Href>(xml)?;
        Ok(Property::AddressbookHomeSet(href))
    } else if i == 4 {
        let href = find_close::<Href>(xml)?;
        Ok(Property::PrincipalAddress(href))
    } else {
        let cols = collect_close::<SupportedCollation>(xml)?;
        Ok(Property::SupportedCollationSet(cols))
    }
}

impl QRead for Property {
    open spec fn qread_spec(evs: Seq<XmlEvent>, st: RState) -> (Result<PropertyView, ParsingError>, RState) {
        card_property_spec(evs, st)
    }

    fn qread(xml: &mut Reader) -> (r: Result<Self, ParsingError>) {
        let keys: Vec<&str> = vec![
            "addressbook-description",
            "supported-address-data",
            "max-resource-size",
            "addressbook-home-set",
            "principal-address",
            "supported-collation-set",
        ];
        assert(keys_view(keys@) =~= card_property_names());
        match open_first(xml, CARD_URN, &keys) {
            Ok(i) => read_card_value(xml, i),
            Err(ParsingError::Recoverable) => {
                let mut dirty = false;
                let mut addrdata: Option<AddressDataPayload> = None;
                xml.maybe_read(&mut addrdata, &mut dirty)?;
                match addrdata {
                    Some(a) => Ok(Property::AddressData(a)),
                    None => Err(ParsingError::Recoverable),
                }
            },
            Err(e) => Err(e),
        }
    }
}

/// The CardDAV condition codes without content tried before
/// `no-uid-conflict`, and those tried after it.
pub open spec fn violation_names_before() -> Seq<Seq<char>> {
    seq!["supported-address-data-conversion"@, "supported-address-data"@, "valid-address-data"@]
}

/// See `violation_names_before`.
pub open spec fn violation_names_after() -> Seq<Seq<char>> {
    seq!["addressbook-collection-location-ok"@, "max-resource-size"@, "supported-collation"@]
}

/// A CardDAV condition code, tried in this order: the codes of
/// `violation_names_before`, `no-uid-conflict` with its reference, the
/// codes of `violation_names_after`, then the DAV code
/// `number-of-matches-within-limits`; none is `Recoverable`.
pub open spec fn card_violation_spec(evs: Seq<XmlEvent>, st: RState) -> (Result<ViolationView, ParsingError>, RState) {
    match atoms_spec(evs, st, CARD_URN@, violation_names_before(), 0) {
        (Ok(i), s) => (
            Ok(
                if i == 0 {
                    ViolationView::SupportedAddressDataConversion
                } else if i == 1 {
                    ViolationView::SupportedAddressData
                } else {
                    ViolationView::ValidAddressData
                },
            ),
            s,
        ),
        (Err(ParsingError::Recoverable), s1) => match open_spec(evs, s1, CARD_URN@, "no-uid-conflict"@) {
            (Ok(_), s2) => match find_close_spec::<Href>(evs, s2) {
                (Ok(h), s) => (Ok(ViolationView::NoUidConflict(h)), s),
                (Err(e), s) => (Err(e), s),
            },
            (Err(ParsingError::Recoverable), s2) => match atoms_spec(evs, s2, CARD_URN@, violation_names_after(), 0) {
                (Ok(i), s) => (
                    Ok(
                        if i == 0 {
                            ViolationView::AddressbookCollectionLocationOk
                        } else if i == 1 {
                            ViolationView::MaxResourceSize
                        } else {
                            ViolationView::SupportedCollation
                        },
                    ),
                    s,
                ),
                (Err(ParsingError::Recoverable), s3) => match atoms_spec(
                    evs,
                    s3,
                    DAV_URN@,
                    seq!["number-of-matches-within-limits"@],
                    0,
                ) {
                    (Ok(_), s) => (Ok(ViolationView::NumberOfMatchesWithinLimits), s),
                    (Err(e), s) => (Err(e), s),
                },
                (Err(e), s) => (Err(e), s),
            },
            (Err(e), s) => (Err(e), s),
        },
        (Err(e), s) => (Err(e), s),
    }
}

impl QRead for Violation {
    open spec fn qread_spec(evs: Seq<XmlEvent>, st: RState) -> (Result<ViolationView, ParsingError>, RState) {
        card_violation_spec(evs, st)
    }

    fn qread(xml: &mut Reader) -> (r: Result<Self, ParsingError>) {
        let before: Vec<&str> = vec!["supported-address-data-conversion", "supported-address-data", "valid-address-data"];
        assert(keys_view(before@) =~= violation_names_before());
        match xml.read_atom(CARD_URN, &before) {
            Ok(i) => {
                return Ok(
                    if i == 0 {
                        Violation::SupportedAddressDataConversion
                    } else if i == 1 {
                        Violation::SupportedAddressData
                    } else {
                        Violation::ValidAddressData
                    },
                );
            },
            Err(ParsingError::Recoverable) => {},
            Err(e) => return Err(e),
        }
        if xml.maybe_open(CARD_URN, "no-uid-conflict")? {
            let href = find_close::<Href>(xml)?;
            return Ok(Violation::NoUidConflict(href));
        }
        let after: Vec<&str> = vec!["addressbook-collection-location-ok", "max-resource-size", "supported-collation"];
        assert(keys_view(after@) =~= violation_names_after());
        match xml.read_atom(CARD_URN, &after) {
            Ok(i) => {
                return Ok(
                    if i == 0 {
                        Violation::AddressbookCollectionLocationOk
                    } else if i == 1 {
                        Violation::MaxResourceSize
                    } else {
                        Violation::SupportedCollation
                    },
                );
            },
            Err(ParsingError::Recoverable) => {},
            Err(e) => return Err(e),
        }
        let last: Vec<&str> = vec!["number-of-matches-within-limits"];
        assert(keys_view(last@) =~= seq!["number-of-matches-within-limits"@]);
        xml.read_atom(DAV_URN, &last)?;
        Ok(Violation::NumberOfMatchesWithinLimits)
    }
}

/// A filter test attribute: absent is the default, an unknown value is
/// `InvalidValue`.
pub open spec fn filter_test_attr(a: Option<Seq<char>>) -> Result<WithDefault<FilterTest>, ParsingError> {
    match a {
        None => Ok(WithDefault::Default),
        Some(t) => match filter_test_of(t) {
            Some(v) => Ok(WithDefault::Value(v)),
            None => Err(ParsingError::InvalidValue),
        },
    }
}

/// Reads the filter test attribute of the element just opened.
fn read_filter_test(xml: &Reader) -> (r: Result<WithDefault<FilterTest>, ParsingError>)
    requires
        xml.wf(),
    ensures
        match r {
            Ok(v) => filter_test_attr(prev_attr_spec(xml.evs(), xml.st(), "test"@)) == Ok::<_, ParsingError>(v@),
            Err(e) => filter_test_attr(prev_attr_spec(xml.evs(), xml.st(), "test"@)) == Err::<WithDefault<FilterTest>, ParsingError>(e),
        },
{
    match xml.prev_attr("test") {
        None => Ok(WithDefault::Default),
        Some(t) => match FilterTest::parse(t.as_str()) {
            Some(v) => Ok(WithDefault::Value(v)),
            None => Err(ParsingError::InvalidValue),
        },
    }
}

/// A negate-condition attribute: absent is the default, other than yes or
/// no is `InvalidValue`.
pub open spec fn negate_attr(a: Option<Seq<char>>) -> Result<WithDefault<NegateCondition>, ParsingError> {
    match a {
        None => Ok(WithDefault::Default),
        Some(t) => match yes_no_of(t) {
            Some(true) => Ok(WithDefault::Value(NegateCondition::Yes)),
            Some(false) => Ok(WithDefault::Value(NegateCondition::No)),
            None => Err(ParsingError::InvalidValue),
        },
    }
}

/// A match-type attribute: absent is the default, an unknown value is
/// `InvalidValue`.
pub open spec fn match_type_attr(a: Option<Seq<char>>) -> Result<WithDefault<TextMatchType>, ParsingError> {
    match a {
        None => Ok(WithDefault::Default),
        Some(t) => match text_match_type_of(t) {
            Some(v) => Ok(WithDefault::Value(v)),
            None => Err(ParsingError::InvalidValue),
        },
    }
}

/// A collation attribute: absent is the default.
pub open spec fn collation_attr(a: Option<Seq<char>>) -> WithDefault<CollationView> {
    match a {
        None => WithDefault::Default,
        Some(t) => WithDefault::Value(collation_view_of(t)),
    }
}

/// `<C:text-match>`: its collation, negation and match-type attributes,
/// and the text to match. An attribute that does not read fails before
/// the text is read.
pub open spec fn text_match_spec(evs: Seq<XmlEvent>, st: RState) -> (Result<TextMatchView, ParsingError>, RState) {
    match open_spec(evs, st, CARD_URN@, "text-match"@) {
        (Err(e), s) => (Err(e), s),
        (Ok(_), s1) => match negate_attr(prev_attr_spec(evs, s1, "negate-condition"@)) {
            Err(e) => (Err(e), s1),
            Ok(nc) => match match_type_attr(prev_attr_spec(evs, s1, "match-type"@)) {
                Err(e) => (Err(e), s1),
                Ok(mt) => match tag_string_spec(evs, s1) {
                    (Err(e), s) => (Err(e), s),
                    (Ok(t), s2) => match close_spec(evs, s2) {
                        (Err(e), s) => (Err(e), s),
                        (Ok(_), s3) => (
                            Ok(
                                TextMatchView {
                                    collation: collation_attr(prev_attr_spec(evs, s1, "collation"@)),
                                    negate_condition: nc,
                                    match_type: mt,
                                    text: t,
                                },
                            ),
                            s3,
                        ),
                    },
                },
            },
        },
    }
}

impl QRead for TextMatch {
    open spec fn qread_spec(evs: Seq<XmlEvent>, st: RState) -> (Result<TextMatchView, ParsingError>, RState) {
        text_match_spec(evs, st)
    }

    fn qread(xml: &mut Reader) -> (r: Result<Self, ParsingError>) {
        xml.open(CARD_URN, "text-match")?;
        let collation = match xml.prev_attr("collation") {
            None => WithDefault::Default,
            Some(t) => WithDefault::Value(Collation::new(t)),
        };
        let negate_condition = match xml.prev_attr("negate-condition") {
            None => WithDefault::Default,
            Some(t) => match NegateCondition::parse(t.as_str()) {
                Some(v) => WithDefault::Value(v),
                None => return Err(ParsingError::InvalidValue),
            },
        };
        let match_type = match xml.prev_attr("match-type") {
            None => WithDefault::Default,
            Some(t) => match TextMatchType::parse(t.as_str()) {
                Some(v) => WithDefault::Value(v),
                None => return Err(ParsingError::InvalidValue),
            },
        };
        let text = xml.tag_string()?;
        xml.close()?;
        Ok(TextMatch { collation, negate_condition, match_type, text })
    }
}

/// What a param-filter asks: `<C:is-not-defined/>`, else a text match.
pub open spec fn param_filter_match_spec(evs: Seq<XmlEvent>, st: RState) -> (
    Result<ParamFilterMatchView, ParsingError>,
    RState,
) {
    match atoms_spec(evs, st, CARD_URN@, seq!["is-not-defined"@], 0) {
        (Ok(_), s) => (Ok(ParamFilterMatchView::IsNotDefined), s),
        (Err(ParsingError::Recoverable), s1) => match text_match_spec(evs, s1) {
            (Ok(t), s) => (Ok(ParamFilterMatchView::Match(t)), s),
            (Err(e), s) => (Err(e), s),
        },
        (Err(e), s) => (Err(e), s),
    }
}

impl QRead for ParamFilterMatch {
    open spec fn qread_spec(evs: Seq<XmlEvent>, st: RState) -> (Result<ParamFilterMatchView, ParsingError>, RState) {
        param_filter_match_spec(evs, st)
    }

    fn qread(xml: &mut Reader) -> (r: Result<Self, ParsingError>) {
        let keys: Vec<&str> = vec!["is-not-defined"];
        assert(keys_view(keys@) =~= seq!["is-not-defined"@]);
        match xml.read_atom(CARD_URN, &keys) {
            Ok(_) => return Ok(ParamFilterMatch::IsNotDefined),
            Err(ParsingError::Recoverable) => {},
            Err(e) => return Err(e),
        }
        match TextMatch::qread(xml) {
            Ok(t) => Ok(ParamFilterMatch::Match(t)),
            Err(e) => Err(e),
        }
    }
}

/// `<C:param-filter name="..">`: the parameter it names, required, and
/// what it asks of it, if anything.
pub open spec fn param_filter_spec(evs: Seq<XmlEvent>, st: RState) -> (Result<ParamFilterView, ParsingError>, RState) {
    match open_spec(evs, st, CARD_URN@, "param-filter"@) {
        (Err(e), s) => (Err(e), s),
        (Ok(_), s1) => match prev_attr_spec(evs, s1, "name"@) {
            None => (Err(ParsingError::MissingAttribute), s1),
            Some(n) => match maybe_find_spec::<ParamFilterMatch>(evs, s1) {
                (Err(e), s) => (Err(e), s),
                (Ok(r), s2) => match close_spec(evs, s2) {
                    (Err(e), s) => (Err(e), s),
                    (Ok(_), s3) => (Ok(ParamFilterView { name: n, rules: r }), s3),
                },
            },
        },
    }
}

impl QRead for ParamFilter {
    open spec fn qread_spec(evs: Seq<XmlEvent>, st: RState) -> (Result<ParamFilterView, ParsingError>, RState) {
        param_filter_spec(evs, st)
    }

    fn qread(xml: &mut Reader) -> (r: Result<Self, ParsingError>) {
        xml.open(CARD_URN, "param-filter")?;
        let name = match xml.prev_attr("name") {
            None => return Err(ParsingError::MissingAttribute),
            Some(n) => PropertyParameterName(n),
        };
        let rules = xml.maybe_find::<ParamFilterMatch>()?;
        xml.close()?;
        Ok(ParamFilter { name, rules })
    }
}

/// The rules of a prop-filter from the current event on, after the text
/// matches `tm` and parameter filters `pf`: `<C:is-not-defined/>` wherever
/// it comes, else the matches and filters up to the closing tag; none at
/// all asks only that the property exists.
pub open spec fn prop_rules_loop(
    evs: Seq<XmlEvent>,
    st: RState,
    tm: Seq<TextMatchView>,
    pf: Seq<ParamFilterView>,
) -> (Result<PropFilterRulesView, ParsingError>, RState)
    decreases evs.len() - st.pos,
{
    match open_spec(evs, st, CARD_URN@, "is-not-defined"@) {
        (Ok(_), s1) => match close_spec(evs, s1) {
            (Ok(_), s2) => (Ok(PropFilterRulesView::IsNotDefined), s2),
            (Err(e), s) => (Err(e), s),
        },
        (Err(ParsingError::Recoverable), _) => {
            let (r1, s1, tm1, d1) = maybe_push_spec::<TextMatch>(evs, st, tm, false);
            if r1 is Err {
                (Err(r1->Err_0), s1)
            } else {
                let (r2, s2, pf1, d2) = maybe_push_spec::<ParamFilter>(evs, s1, pf, d1);
                if r2 is Err {
                    (Err(r2->Err_0), s2)
                } else if d2 {
                    if st.pos < s2.pos <= evs.len() {
                        prop_rules_loop(evs, s2, tm1, pf1)
                    } else {
                        (Err(ParsingError::Eof), s2)
                    }
                } else if 0 <= s2.pos < evs.len() {
                    if evs[s2.pos] is End {
                        if tm1.len() == 0 && pf1.len() == 0 {
                            (Ok(PropFilterRulesView::Empty), s2)
                        } else {
                            (Ok(PropFilterRulesView::Match { text_match: tm1, param_filter: pf1 }), s2)
                        }
                    } else {
                        match skip_spec(evs, s2) {
                            (Err(e), s3) => (Err(e), s3),
                            (Ok(_), s3) => if st.pos < s3.pos <= evs.len() {
                                prop_rules_loop(evs, s3, tm1, pf1)
                            } else {
                                (Err(ParsingError::Eof), s3)
                            },
                        }
                    }
                } else {
                    (Err(ParsingError::Eof), s2)
                }
            }
        },
        (Err(e), s) => (Err(e), s),
    }
}

impl PropFilterRules {
    /// Reads the rules of a prop-filter from the current event on; see
    /// `prop_rules_loop`. Empty rules leave the cursor at the closing tag.
    #[verifier::spinoff_prover]
    #[verifier::rlimit(40)]
    pub fn qread(xml: &mut Reader) -> (r: Result<Self, ParsingError>)
        requires
            old(xml).wf(),
        ensures
            final(xml).wf(),
            final(xml).evs() == old(xml).evs(),
            match r {
                Ok(v) => prop_rules_loop(old(xml).evs(), old(xml).st(), Seq::empty(), Seq::empty()).0 == Ok::<
                    PropFilterRulesView,
                    ParsingError,
                >(v@),
                Err(e) => prop_rules_loop(old(xml).evs(), old(xml).st(), Seq::empty(), Seq::empty()).0 == Err::<
                    PropFilterRulesView,
                    ParsingError,
                >(e),
            },
            final(xml).st() == prop_rules_loop(old(xml).evs(), old(xml).st(), Seq::empty(), Seq::empty()).1,
            final(xml).st().pos >= old(xml).st().pos,
    {
        let ghost evs = xml.evs();
        let ghost st0 = xml.st();
        let mut text_match: Vec<TextMatch> = Vec::new();
        let mut param_filter: Vec<ParamFilter> = Vec::new();
        proof {
            assert(views(text_match@) =~= Seq::<TextMatchView>::empty());
            assert(views(param_filter@) =~= Seq::<ParamFilterView>::empty());
        }
        loop
            invariant
                xml.wf(),
                xml.evs() == evs,
                evs == old(xml).evs(),
                st0 == old(xml).st(),
                xml.st().pos >= st0.pos,
                prop_rules_loop(evs, xml.st(), views(text_match@), views(param_filter@)) == prop_rules_loop(
                    evs,
                    st0,
                    Seq::empty(),
                    Seq::empty(),
                ),
            decreases evs.len() - xml.st().pos,
        {
            let ghost here = xml.st();
            if xml.maybe_open(CARD_URN, "is-not-defined")? {
                xml.close()?;
                return Ok(PropFilterRules::IsNotDefined);
            }
            let mut dirty = false;
            xml.maybe_push(&mut text_match, &mut dirty)?;
            xml.maybe_push(&mut param_filter, &mut dirty)?;
            if !dirty {
                if let XmlEvent::End(_) = xml.peek() {
                    if text_match.len() == 0 && param_filter.len() == 0 {
                        return Ok(PropFilterRules::Empty);
                    }
                    return Ok(PropFilterRules::Match { text_match, param_filter });
                }
                proof {
                    lemma_skip(evs, xml.st());
                }
                xml.skip()?;
            }
            assert(here.pos < xml.st().pos);
        }
    }
}

/// `<C:prop-filter name=".." test="..">`: the property it names
/// (required), how its rules combine, and its rules; a self-closing
/// element has no rules to read and is `Recoverable`.
pub open spec fn prop_filter_spec(evs: Seq<XmlEvent>, st: RState) -> (Result<PropFilterView, ParsingError>, RState) {
    match open_spec(evs, st, CARD_URN@, "prop-filter"@) {
        (Err(e), s) => (Err(e), s),
        (Ok(_), s1) => match prev_attr_spec(evs, s1, "name"@) {
            None => (Err(ParsingError::MissingAttribute), s1),
            Some(n) => match filter_test_attr(prev_attr_spec(evs, s1, "test"@)) {
                Err(e) => (Err(e), s1),
                Ok(t) => match (if parent_has_child_spec(evs, s1) {
                    prop_rules_loop(evs, s1, Seq::empty(), Seq::empty())
                } else {
                    (Err(ParsingError::Recoverable), s1)
                }) {
                    (Err(e), s) => (Err(e), s),
                    (Ok(r), s2) => match close_spec(evs, s2) {
                        (Err(e), s) => (Err(e), s),
                        (Ok(_), s3) => (Ok(PropFilterView { name: property_name_of(n), test: t, rules: r }), s3),
                    },
                },
            },
        },
    }
}

impl QRead for PropFilter {
    open spec fn qread_spec(evs: Seq<XmlEvent>, st: RState) -> (Result<PropFilterView, ParsingError>, RState) {
        prop_filter_spec(evs, st)
    }

    fn qread(xml: &mut Reader) -> (r: Result<Self, ParsingError>) {
        xml.open(CARD_URN, "prop-filter")?;
        let name = match xml.prev_attr("name") {
            None => return Err(ParsingError::MissingAttribute),
            Some(n) => PropertyName::parse(n.as_str()),
        };
        let test = read_filter_test(xml)?;
        if !xml.parent_has_child() {
            return Err(ParsingError::Recoverable);
        }
        let rules = PropFilterRules::qread(xml)?;
        xml.close()?;
        Ok(PropFilter { name, test, rules })
    }
}

/// `<C:filter test="..">`: how its filters combine, and the prop-filters
/// among its children.
pub open spec fn filter_spec(evs: Seq<XmlEvent>, st: RState) -> (Result<FilterView, ParsingError>, RState) {
    match open_spec(evs, st, CARD_URN@, "filter"@) {
        (Err(e), s) => (Err(e), s),
        (Ok(_), s1) => match filter_test_attr(prev_attr_spec(evs, s1, "test"@)) {
            Err(e) => (Err(e), s1),
            Ok(t) => match collect_close_spec::<PropFilter>(evs, s1) {
                (Err(e), s) => (Err(e), s),
                (Ok(v), s2) => (Ok(FilterView { prop_filters: v, test: t }), s2),
            },
        },
    }
}

impl QRead for Filter {
    open spec fn qread_spec(evs: Seq<XmlEvent>, st: RState) -> (Result<FilterView, ParsingError>, RState) {
        filter_spec(evs, st)
    }

    fn qread(xml: &mut Reader) -> (r: Result<Self, ParsingError>) {
        xml.open(CARD_URN, "filter")?;
        let test = read_filter_test(xml)?;
        let prop_filters = collect_close::<PropFilter>(xml)?;
        Ok(Filter { prop_filters, test })
    }
}

/// The children of `<C:limit>` from the current event on: the first
/// `<C:nresults>`, whose text, trimmed, must be a count (else
/// `InvalidValue`); none before the closing tag is none.
pub open spec fn card_limit_loop(evs: Seq<XmlEvent>, st: RState) -> (Result<Option<u64>, ParsingError>, RState)
    decreases evs.len() - st.pos,
{
    match open_spec(evs, st, CARD_URN@, "nresults"@) {
        (Ok(_), s1) => match tag_string_spec(evs, s1) {
            (Err(e), s) => (Err(e), s),
            (Ok(t), s2) => match u64_of(trimmed(t)) {
                None => (Err(ParsingError::InvalidValue), s2),
                Some(n) => match close_spec(evs, s2) {
                    (Err(e), s) => (Err(e), s),
                    (Ok(_), s3) => (Ok(Some(n)), s3),
                },
            },
        },
        (Err(ParsingError::Recoverable), _) => if 0 <= st.pos < evs.len() {
            if evs[st.pos] is End {
                (Ok(None), st)
            } else {
                match skip_spec(evs, st) {
                    (Err(e), s2) => (Err(e), s2),
                    (Ok(_), s2) => if st.pos < s2.pos <= evs.len() {
                        card_limit_loop(evs, s2)
                    } else {
                        (Err(ParsingError::Eof), s2)
                    },
                }
            }
        } else {
            (Err(ParsingError::Eof), st)
        },
        (Err(e), s) => (Err(e), s),
    }
}

/// `<C:limit>`: the count of its `<C:nresults>`; without one the limit
/// is `Recoverable` once the element is closed.
pub open spec fn card_limit_spec(evs: Seq<XmlEvent>, st: RState) -> (Result<u64, ParsingError>, RState) {
    match open_spec(evs, st, CARD_URN@, "limit"@) {
        (Err(e), s) => (Err(e), s),
        (Ok(_), s1) => match card_limit_loop(evs, s1) {
            (Err(e), s) => (Err(e), s),
            (Ok(n), s2) => match close_spec(evs, s2) {
                (Err(e), s) => (Err(e), s),
                (Ok(_), s3) => match n {
                    Some(v) => (Ok(v), s3),
                    None => (Err(ParsingError::Recoverable), s3),
                },
            },
        },
    }
}

/// Reads the children of `<C:limit>`; see `card_limit_loop`.
fn read_card_limit_body(xml: &mut Reader) -> (r: Result<Option<u64>, ParsingError>)
    requires
        old(xml).wf(),
    ensures
        final(xml).wf(),
        final(xml).evs() == old(xml).evs(),
        r == card_limit_loop(old(xml).evs(), old(xml).st()).0,
        final(xml).st() == card_limit_loop(old(xml).evs(), old(xml).st()).1,
        final(xml).st().pos >= old(xml).st().pos,
{
    let ghost evs = xml.evs();
    let ghost st0 = xml.st();
    loop
        invariant
            xml.wf(),
            xml.evs() == evs,
            evs == old(xml).evs(),
            st0 == old(xml).st(),
            xml.st().pos >= st0.pos,
            card_limit_loop(evs, xml.st()) == card_limit_loop(evs, st0),
        decreases evs.len() - xml.st().pos,
    {
        let ghost here = xml.st();
        if xml.maybe_open(CARD_URN, "nresults")? {
            let text = xml.tag_string()?;
            let trimmed_text = trim(text.as_str());
            let n = match parse_u64(trimmed_text.as_str()) {
                None => return Err(ParsingError::InvalidValue),
                Some(n) => n,
            };
            xml.close()?;
            return Ok(Some(n));
        }
        if let XmlEvent::End(_) = xml.peek() {
            return Ok(None);
        }
        proof {
            lemma_skip(evs, xml.st());
        }
        xml.skip()?;
        assert(here.pos < xml.st().pos);
    }
}

impl QRead for Limit {
    open spec fn qread_spec(evs: Seq<XmlEvent>, st: RState) -> (Result<u64, ParsingError>, RState) {
        card_limit_spec(evs, st)
    }

    fn qread(xml: &mut Reader) -> (r: Result<Self, ParsingError>) {
        xml.open(CARD_URN, "limit")?;
        let nresults = read_card_limit_body(xml)?;
        xml.close()?;
        match nresults {
            Some(nresults) => Ok(Limit { nresults }),
            None => Err(ParsingError::Recoverable),
        }
    }
}

/// Which properties a report returns, by its view.
pub enum AddressbookSelectorView<Q> {
    AllProp,
    PropName,
    Prop(Seq<DavPropertyRequestView<Q>>),
}

impl<E: Extension> View for AddressbookSelector<E> where E::PropertyRequest: View {
    type V = AddressbookSelectorView<<E::PropertyRequest as View>::V>;

    open spec fn view(&self) -> Self::V {
        match self {
            AddressbookSelector::AllProp => AddressbookSelectorView::AllProp,
            AddressbookSelector::PropName => AddressbookSelectorView::PropName,
            AddressbookSelector::Prop(p) => AddressbookSelectorView::Prop(p@),
        }
    }
}

/// Which properties a report returns: `<D:allprop/>`, `<D:propname/>` or
/// `<D:prop>` with property names; none of them is `Recoverable`.
pub open spec fn selector_spec<E: Extension>(evs: Seq<XmlEvent>, st: RState) -> (
    Result<AddressbookSelectorView<<E::PropertyRequest as View>::V>, ParsingError>,
    RState,
) where E::PropertyRequest: QRead {
    match atoms_spec(evs, st, DAV_URN@, seq!["allprop"@, "propname"@], 0) {
        (Ok(i), s) => (Ok(if i == 0 { AddressbookSelectorView::AllProp } else { AddressbookSelectorView::PropName }), s),
        (Err(ParsingError::Recoverable), s1) => match maybe_read_spec::<PropName<E>>(evs, s1, None, false) {
            (Err(e), s, _, _) => (Err(e), s),
            (Ok(_), s, Some(p), _) => (Ok(AddressbookSelectorView::Prop(p)), s),
            (Ok(_), s, None, _) => (Err(ParsingError::Recoverable), s),
        },
        (Err(e), s) => (Err(e), s),
    }
}

impl<E: Extension> QRead for AddressbookSelector<E> where E::PropertyRequest: QRead {
    open spec fn qread_spec(evs: Seq<XmlEvent>, st: RState) -> (Result<Self::V, ParsingError>, RState) {
        selector_spec::<E>(evs, st)
    }

    fn qread(xml: &mut Reader) -> (r: Result<Self, ParsingError>) {
        let keys: Vec<&str> = vec!["allprop", "propname"];
        assert(keys_view(keys@) =~= seq!["allprop"@, "propname"@]);
        match xml.read_atom(DAV_URN, &keys) {
            Ok(i) => return Ok(if i == 0 { AddressbookSelector::AllProp } else { AddressbookSelector::PropName }),
            Err(ParsingError::Recoverable) => {},
            Err(e) => return Err(e),
        }
        let mut maybe_prop: Option<PropName<E>> = None;
        let mut dirty = false;
        xml.maybe_read::<PropName<E>>(&mut maybe_prop, &mut dirty)?;
        match maybe_prop {
            Some(prop) => Ok(AddressbookSelector::Prop(prop)),
            None => Err(ParsingError::Recoverable),
        }
    }
}

/// An addressbook-query report by its view.
pub struct AddressbookQueryView<Q> {
    pub selector: Option<AddressbookSelectorView<Q>>,
    pub filter: FilterView,
    pub limit: Option<u64>,
}

impl<E: Extension> View for AddressbookQuery<E> where E::PropertyRequest: View {
    type V = AddressbookQueryView<<E::PropertyRequest as View>::V>;

    open spec fn view(&self) -> Self::V {
        AddressbookQueryView { selector: opt_view(self.selector), filter: self.filter@, limit: opt_view(self.limit) }
    }
}

/// What has been read of an addressbook-query report so far.
pub struct QuerySlots<Q> {
    pub selector: Option<AddressbookSelectorView<Q>>,
    pub filter: Option<FilterView>,
    pub limit: Option<u64>,
}

/// One pass over the children of an addressbook-query report: the
/// selector, the filter and the limit, each read where it stands.
pub open spec fn query_step<E: Extension>(evs: Seq<XmlEvent>, st: RState, sl: QuerySlots<<E::PropertyRequest as View>::V>) -> (
    Result<(), ParsingError>,
    RState,
    QuerySlots<<E::PropertyRequest as View>::V>,
    bool,
) where E::PropertyRequest: QRead {
    let (r1, s1, a, d1) = maybe_read_spec::<AddressbookSelector<E>>(evs, st, sl.selector, false);
    if r1 is Err {
        (r1, s1, QuerySlots { selector: a, ..sl }, d1)
    } else {
        let (r2, s2, b, d2) = maybe_read_spec::<Filter>(evs, s1, sl.filter, d1);
        if r2 is Err {
            (r2, s2, QuerySlots { selector: a, filter: b, ..sl }, d2)
        } else {
            let (r3, s3, c, d3) = maybe_read_spec::<Limit>(evs, s2, sl.limit, d2);
            (r3, s3, QuerySlots { selector: a, filter: b, limit: c }, d3)
        }
    }
}

/// Passes over the children of an addressbook-query report until a pass
/// reads nothing at its closing tag; the nodes where nothing reads are
/// skipped.
pub open spec fn query_loop<E: Extension>(evs: Seq<XmlEvent>, st: RState, sl: QuerySlots<<E::PropertyRequest as View>::V>) -> (
    Result<(), ParsingError>,
    RState,
    QuerySlots<<E::PropertyRequest as View>::V>,
) where E::PropertyRequest: QRead
    decreases evs.len() - st.pos,
{
    let (r, s, sl2, dirty) = query_step::<E>(evs, st, sl);
    if r is Err {
        (r, s, sl2)
    } else if dirty {
        if st.pos < s.pos <= evs.len() {
            query_loop::<E>(evs, s, sl2)
        } else {
            (Err(ParsingError::Eof), s, sl2)
        }
    } else if 0 <= s.pos < evs.len() {
        if evs[s.pos] is End {
            (Ok(()), s, sl2)
        } else {
            match skip_spec(evs, s) {
                (Err(e), s2) => (Err(e), s2, sl2),
                (Ok(_), s2) => if st.pos < s2.pos <= evs.len() {
                    query_loop::<E>(evs, s2, sl2)
                } else {
                    (Err(ParsingError::Eof), s2, sl2)
                },
            }
        }
    } else {
        (Err(ParsingError::Eof), s, sl2)
    }
}

/// `<C:addressbook-query>`: a filter, required, with an optional selector
/// and limit.
pub open spec fn addressbook_query_spec<E: Extension>(evs: Seq<XmlEvent>, st: RState) -> (
    Result<AddressbookQueryView<<E::PropertyRequest as View>::V>, ParsingError>,
    RState,
) where E::PropertyRequest: QRead {
    match open_spec(evs, st, CARD_URN@, "addressbook-query"@) {
        (Err(e), s) => (Err(e), s),
        (Ok(_), s1) => match query_loop::<E>(evs, s1, QuerySlots { selector: None, filter: None, limit: None }) {
            (Err(e), s, _) => (Err(e), s),
            (Ok(_), s2, sl) => match close_spec(evs, s2) {
                (Err(e), s) => (Err(e), s),
                (Ok(_), s3) => match sl.filter {
                    Some(f) => (Ok(AddressbookQueryView { selector: sl.selector, filter: f, limit: sl.limit }), s3),
                    None => (Err(ParsingError::MissingChild), s3),
                },
            },
        },
    }
}

impl<E: Extension> QRead for AddressbookQuery<E> where E::PropertyRequest: QRead {
    open spec fn qread_spec(evs: Seq<XmlEvent>, st: RState) -> (Result<Self::V, ParsingError>, RState) {
        addressbook_query_spec::<E>(evs, st)
    }

    fn qread(xml: &mut Reader) -> (r: Result<Self, ParsingError>) {
        xml.open(CARD_URN, "addressbook-query")?;
        let ghost evs = xml.evs();
        let ghost s1 = xml.st();
        let ghost start = old(xml).st();
        let mut selector: Option<AddressbookSelector<E>> = None;
        let mut filter: Option<Filter> = None;
        let mut limit: Option<Limit> = None;
        loop
            invariant_except_break
                query_loop::<E>(
                    evs,
                    xml.st(),
                    QuerySlots { selector: opt_view(selector), filter: opt_view(filter), limit: opt_view(limit) },
                ) == query_loop::<E>(evs, s1, QuerySlots { selector: None, filter: None, limit: None }),
            invariant
                xml.wf(),
                xml.evs() == evs,
                evs == old(xml).evs(),
                start == old(xml).st(),
                xml.st().pos >= s1.pos,
                s1.pos >= start.pos,
                open_spec(evs, start, CARD_URN@, "addressbook-query"@).1 == s1,
                open_spec(evs, start, CARD_URN@, "addressbook-query"@).0 is Ok,
            ensures
                query_loop::<E>(evs, s1, QuerySlots { selector: None, filter: None, limit: None }) == (
                    Ok::<(), ParsingError>(()),
                    xml.st(),
                    QuerySlots { selector: opt_view(selector), filter: opt_view(filter), limit: opt_view(limit) },
                ),
            decreases evs.len() - xml.st().pos,
        {
            let ghost here = xml.st();
            let mut dirty = false;
            xml.maybe_read(&mut selector, &mut dirty)?;
            xml.maybe_read(&mut filter, &mut dirty)?;
            xml.maybe_read(&mut limit, &mut dirty)?;
            if !dirty {
                if let XmlEvent::End(_) = xml.peek() {
                    break;
                }
                proof {
                    lemma_skip(evs, xml.st());
                }
                xml.skip()?;
            }
            assert(here.pos < xml.st().pos);
        }
        xml.close()?;
        match filter {
            Some(filter) => Ok(AddressbookQuery { selector, filter, limit }),
            None => Err(ParsingError::MissingChild),
        }
    }
}

/// An addressbook-multiget report by its view.
pub struct AddressbookMultigetView<Q> {
    pub selector: Option<AddressbookSelectorView<Q>>,
    pub href: Seq<Seq<char>>,
}

impl<E: Extension> View for AddressbookMultiget<E> where E::PropertyRequest: View {
    type V = AddressbookMultigetView<<E::PropertyRequest as View>::V>;

    open spec fn view(&self) -> Self::V {
        AddressbookMultigetView { selector: opt_view(self.selector), href: views(self.href@) }
    }
}

/// Passes over the children of an addressbook-multiget report, reading
/// the selector and the references where they stand, until a pass reads
/// nothing at its closing tag.
pub open spec fn multiget_loop<E: Extension>(
    evs: Seq<XmlEvent>,
    st: RState,
    sel: Option<AddressbookSelectorView<<E::PropertyRequest as View>::V>>,
    href: Seq<Seq<char>>,
) -> (Result<(), ParsingError>, RState, Option<AddressbookSelectorView<<E::PropertyRequest as View>::V>>, Seq<Seq<char>>) where
    E::PropertyRequest: QRead,
    decreases evs.len() - st.pos,
{
    let (r1, s1, a, d1) = maybe_read_spec::<AddressbookSelector<E>>(evs, st, sel, false);
    if r1 is Err {
        (r1, s1, a, href)
    } else {
        let (r2, s2, b, d2) = maybe_push_spec::<Href>(evs, s1, href, d1);
        if r2 is Err {
            (r2, s2, a, b)
        } else if d2 {
            if st.pos < s2.pos <= evs.len() {
                multiget_loop::<E>(evs, s2, a, b)
            } else {
                (Err(ParsingError::Eof), s2, a, b)
            }
        } else if 0 <= s2.pos < evs.len() {
            if evs[s2.pos] is End {
                (Ok(()), s2, a, b)
            } else {
                match skip_spec(evs, s2) {
                    (Err(e), s3) => (Err(e), s3, a, b),
                    (Ok(_), s3) => if st.pos < s3.pos <= evs.len() {
                        multiget_loop::<E>(evs, s3, a, b)
                    } else {
                        (Err(ParsingError::Eof), s3, a, b)
                    },
                }
            }
        } else {
            (Err(ParsingError::Eof), s2, a, b)
        }
    }
}

/// `<C:addressbook-multiget>`: an optional selector and the references.
pub open spec fn addressbook_multiget_spec<E: Extension>(evs: Seq<XmlEvent>, st: RState) -> (
    Result<AddressbookMultigetView<<E::PropertyRequest as View>::V>, ParsingError>,
    RState,
) where E::PropertyRequest: QRead {
    match open_spec(evs, st, CARD_URN@, "addressbook-multiget"@) {
        (Err(e), s) => (Err(e), s),
        (Ok(_), s1) => match multiget_loop::<E>(evs, s1, None, Seq::empty()) {
            (Err(e), s, _, _) => (Err(e), s),
            (Ok(_), s2, sel, href) => match close_spec(evs, s2) {
                (Err(e), s) => (Err(e), s),
                (Ok(_), s3) => (Ok(AddressbookMultigetView { selector: sel, href }), s3),
            },
        },
    }
}

impl<E: Extension> QRead for AddressbookMultiget<E> where E::PropertyRequest: QRead {
    open spec fn qread_spec(evs: Seq<XmlEvent>, st: RState) -> (Result<Self::V, ParsingError>, RState) {
        addressbook_multiget_spec::<E>(evs, st)
    }

    fn qread(xml: &mut Reader) -> (r: Result<Self, ParsingError>) {
        xml.open(CARD_URN, "addressbook-multiget")?;
        let ghost evs = xml.evs();
        let ghost s1 = xml.st();
        let ghost start = old(xml).st();
        let mut selector: Option<AddressbookSelector<E>> = None;
        let mut href: Vec<Href> = Vec::new();
        proof {
            assert(views(href@) =~= Seq::<Seq<char>>::empty());
        }
        loop
            invariant_except_break
                multiget_loop::<E>(evs, xml.st(), opt_view(selector), views(href@)) == multiget_loop::<E>(
                    evs,
                    s1,
                    None,
                    Seq::empty(),
                ),
            invariant
                xml.wf(),
                xml.evs() == evs,
                evs == old(xml).evs(),
                start == old(xml).st(),
                xml.st().pos >= s1.pos,
                s1.pos >= start.pos,
                open_spec(evs, start, CARD_URN@, "addressbook-multiget"@).1 == s1,
                open_spec(evs, start, CARD_URN@, "addressbook-multiget"@).0 is Ok,
            ensures
                multiget_loop::<E>(evs, s1, None, Seq::empty()) == (
                    Ok::<(), ParsingError>(()),
                    xml.st(),
                    opt_view(selector),
                    views(href@),
                ),
            decreases evs.len() - xml.st().pos,
        {
            let ghost here = xml.st();
            let mut dirty = false;
            xml.maybe_read(&mut selector, &mut dirty)?;
            xml.maybe_push(&mut href, &mut dirty)?;
            if !dirty {
                if let XmlEvent::End(_) = xml.peek() {
                    break;
                }
                proof {
                    lemma_skip(evs, xml.st());
                }
                xml.skip()?;
            }
            assert(here.pos < xml.st().pos);
        }
        xml.close()?;
        Ok(AddressbookMultiget { selector, href })
    }
}

/// A CardDAV report by its view.
pub enum ReportTypeView<Q> {
    Query(AddressbookQueryView<Q>),
    Multiget(AddressbookMultigetView<Q>),
}

impl<E: Extension> View for ReportType<E> where E::PropertyRequest: View {
    type V = ReportTypeView<<E::PropertyRequest as View>::V>;

    open spec fn view(&self) -> Self::V {
        match self {
            ReportType::Query(q) => ReportTypeView::Query(q@),
            ReportType::Multiget(m) => ReportTypeView::Multiget(m@),
        }
    }
}

impl<E: Extension> QRead for ReportType<E> where E::PropertyRequest: QRead {
    /// An addressbook-query report, else an addressbook-multiget report
    /// read where the attempt left the cursor.
    open spec fn qread_spec(evs: Seq<XmlEvent>, st: RState) -> (Result<Self::V, ParsingError>, RState) {
        match addressbook_query_spec::<E>(evs, st) {
            (Ok(q), s) => (Ok(ReportTypeView::Query(q)), s),
            (Err(ParsingError::Recoverable), s1) => match addressbook_multiget_spec::<E>(evs, s1) {
                (Ok(m), s) => (Ok(ReportTypeView::Multiget(m)), s),
                (Err(e), s) => (Err(e), s),
            },
            (Err(e), s) => (Err(e), s),
        }
    }

    fn qread(xml: &mut Reader) -> (r: Result<Self, ParsingError>) {
        match AddressbookQuery::<E>::qread(xml) {
            Ok(q) => return Ok(ReportType::Query(q)),
            Err(ParsingError::Recoverable) => {},
            Err(e) => return Err(e),
        }
        match AddressbookMultiget::<E>::qread(xml) {
            Ok(m) => Ok(ReportType::Multiget(m)),
            Err(e) => Err(e),
        }
    }
}

} // verus!
