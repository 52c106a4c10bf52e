//! Writing the CardDAV elements (RFC 6352).
use vstd::prelude::*;

use super::cardtypes::{
    collation_name, filter_test_name, property_name_text, text_match_type_name, yes_no_name, AddressDataPayload,
    AddressDataRequest, AddressDataType, CardProp, Collation, ContentType, Filter, FilterTest, Limit,
    NegateCondition, NoValue, ParamFilter, ParamFilterMatch, PropFilter, PropFilterRules, PropKind, Property,
    PropertyRequest, ReportTypeName, ResourceType, SupportedCollation, TextMatch, TextMatchType, Version, Violation,
};
use super::syncencoder::{text_element, write_text_element};
use super::xml::{attrs_view, ElemStart, QWrite, WEvent, WView, WithDefault, Writer};
use crate::text::{decimal, decimal_string};

verus! {

/// The written name of the CardDAV element `name`.
pub open spec fn card_q(name: Seq<char>) -> Seq<char> {
    seq!['C', ':'] + name
}

/// An empty CardDAV element with the attributes `attrs`.
pub open spec fn card_atom(name: Seq<char>, attrs: Seq<(Seq<char>, Seq<char>)>) -> Seq<WView> {
    seq![WView::Empty(card_q(name), attrs)]
}

/// The element written `q`, with the attributes `attrs`, around what
/// `inner` writes.
pub open spec fn around(q: Seq<char>, attrs: Seq<(Seq<char>, Seq<char>)>, inner: Seq<WView>) -> Seq<WView> {
    seq![WView::Start(q, attrs)] + inner + seq![WView::End(q)]
}

/// What a list of values writes, one after the other, inside an element.
pub open spec fn written_all<T: QWrite>(items: Seq<T>) -> Seq<WView>
    decreases items.len(),
{
    if items.len() == 0 {
        Seq::empty()
    } else {
        written_all(items.drop_last()) + items.last().qwrite_spec(Seq::empty())
    }
}

/// Writes a list of values, one after the other, inside an element.
pub(crate) fn write_all<T: QWrite>(xml: &mut Writer, items: &Vec<T>)
    requires
        old(xml).ns() == Seq::<(Seq<char>, Seq<char>)>::empty(),
    ensures
        final(xml).out() == old(xml).out() + written_all(items@),
        final(xml).ns() == Seq::<(Seq<char>, Seq<char>)>::empty(),
{
    let ghost head = xml.out();
    let mut i: usize = 0;
    while i < items.len()
        invariant
            i <= items@.len(),
            xml.ns() == Seq::<(Seq<char>, Seq<char>)>::empty(),
            xml.out() == head + written_all(items@.take(i as int)),
        decreases items@.len() - i,
    {
        items[i].qwrite(xml);
        proof {
            assert(items@.take(i + 1).drop_last() == items@.take(i as int));
            assert(items@.take(i + 1).last() == items@[i as int]);
        }
        i = i + 1;
    }
    proof {
        assert(items@.take(items@.len() as int) == items@);
    }
}

/// Writes the element `start` around a list of values.
pub(crate) fn write_around_all<T: QWrite>(xml: &mut Writer, start: ElemStart, items: &Vec<T>)
    requires
        old(xml).ns() == Seq::<(Seq<char>, Seq<char>)>::empty(),
    ensures
        final(xml).out() == old(xml).out() + around(start.qname@, attrs_view(start.attrs@), written_all(items@)),
        final(xml).ns() == Seq::<(Seq<char>, Seq<char>)>::empty(),
{
    let ghost o = xml.out();
    let ghost q = start.qname@;
    let ghost a = attrs_view(start.attrs@);
    let end = start.to_end();
    xml.write(WEvent::Start(start));
    write_all(xml, items);
    xml.write(end);
    assert(xml.out() =~= o + around(q, a, written_all(items@)));
}

/// Writes the element `start` around a value.
pub(crate) fn write_around<T: QWrite>(xml: &mut Writer, start: ElemStart, v: &T)
    requires
        old(xml).ns() == Seq::<(Seq<char>, Seq<char>)>::empty(),
    ensures
        final(xml).out() == old(xml).out() + around(start.qname@, attrs_view(start.attrs@), v.qwrite_spec(Seq::empty())),
        final(xml).ns() == Seq::<(Seq<char>, Seq<char>)>::empty(),
{
    let ghost o = xml.out();
    let ghost q = start.qname@;
    let ghost a = attrs_view(start.attrs@);
    let end = start.to_end();
    xml.write(WEvent::Start(start));
    v.qwrite(xml);
    xml.write(end);
    assert(xml.out() =~= o + around(q, a, v.qwrite_spec(Seq::empty())));
}

/// Writes the empty CardDAV element `name`.
fn write_card_atom(xml: &mut Writer, name: &str)
    ensures
        final(xml).out() == old(xml).out() + card_atom(name@, old(xml).ns()),
        final(xml).ns() == Seq::<(Seq<char>, Seq<char>)>::empty(),
{
    let ghost o = xml.out();
    let e = xml.create_card_element(name);
    xml.write(WEvent::Empty(e));
    assert(xml.out() =~= o + card_atom(name@, old(xml).ns()));
}

/// The attribute `key` of a value with a default: written only when the
/// value is explicit.
pub open spec fn default_attr(key: Seq<char>, v: WithDefault<Seq<char>>) -> Seq<(Seq<char>, Seq<char>)> {
    match v {
        WithDefault::Value(t) => seq![(key, t)],
        WithDefault::Default => Seq::empty(),
    }
}

/// The media type and version attributes.
pub open spec fn type_attrs(ct: WithDefault<Seq<char>>, vs: WithDefault<Seq<char>>) -> Seq<(Seq<char>, Seq<char>)> {
    default_attr("content-type"@, ct) + default_attr("version"@, vs)
}

/// Adds the media type and version attributes to an element.
fn push_type_attrs(start: &mut ElemStart, ct: &WithDefault<ContentType>, vs: &WithDefault<Version>)
    ensures
        final(start).qname@ == old(start).qname@,
        attrs_view(final(start).attrs@) == attrs_view(old(start).attrs@) + type_attrs(ct@, vs@),
{
    let ghost a0 = attrs_view(start.attrs@);
    proof {
        reveal_strlit("content-type");
        reveal_strlit("version");
    }
    if let WithDefault::Value(c) = ct {
        start.push_attribute("content-type", c.0.as_str());
    }
    let ghost a1 = attrs_view(start.attrs@);
    if let WithDefault::Value(v) = vs {
        start.push_attribute("version", v.0.as_str());
    }
    assert(attrs_view(start.attrs@) =~= a0 + type_attrs(ct@, vs@));
}

impl QWrite for ResourceType {
    open spec fn qwrite_spec(&self, ns: Seq<(Seq<char>, Seq<char>)>) -> Seq<WView> {
        card_atom("addressbook"@, ns)
    }

    fn qwrite(&self, xml: &mut Writer) {
        write_card_atom(xml, "addressbook");
    }
}

impl QWrite for ReportTypeName {
    open spec fn qwrite_spec(&self, ns: Seq<(Seq<char>, Seq<char>)>) -> Seq<WView> {
        match self {
            ReportTypeName::Query => card_atom("addressbook-query"@, ns),
            ReportTypeName::Multiget => card_atom("addressbook-multiget"@, ns),
        }
    }

    fn qwrite(&self, xml: &mut Writer) {
        match self {
            Self::Query => write_card_atom(xml, "addressbook-query"),
            Self::Multiget => write_card_atom(xml, "addressbook-multiget"),
        }
    }
}

/// The `name` and `novalue` attributes of a requested property.
pub open spec fn card_prop_attrs(p: CardProp) -> Seq<(Seq<char>, Seq<char>)> {
    seq![("name"@, property_name_text(p.name))] + match p.novalue {
        WithDefault::Value(nv) => seq![("novalue"@, yes_no_name(nv == NoValue::Yes))],
        WithDefault::Default => Seq::empty(),
    }
}

impl QWrite for CardProp {
    open spec fn qwrite_spec(&self, ns: Seq<(Seq<char>, Seq<char>)>) -> Seq<WView> {
        card_atom("prop"@, ns + card_prop_attrs(*self))
    }

    fn qwrite(&self, xml: &mut Writer) {
        let ghost o = xml.out();
        let ghost ns = xml.ns();
        let mut empty = xml.create_card_element("prop");
        let name = self.name.to_text();
        empty.push_attribute("name", name.as_str());
        if let WithDefault::Value(nv) = &self.novalue {
            empty.push_attribute("novalue", nv.as_str());
        }
        proof {
            reveal_strlit("name");
            reveal_strlit("novalue");
            assert(attrs_view(empty.attrs@) =~= ns + card_prop_attrs(*self));
        }
        xml.write(WEvent::Empty(empty));
        assert(xml.out() =~= o + self.qwrite_spec(ns));
    }
}

impl PropKind {
    /// What the properties to return write inside address-data: an
    /// `<C:allprop/>`, or the requested properties.
    pub open spec fn written(&self) -> Seq<WView> {
        match self {
            PropKind::AllProp => card_atom("allprop"@, Seq::empty()),
            PropKind::Prop(v) => written_all(v@),
        }
    }

    /// Writes the properties to return inside address-data.
    pub fn qwrite(&self, xml: &mut Writer)
        requires
            old(xml).ns() == Seq::<(Seq<char>, Seq<char>)>::empty(),
        ensures
            final(xml).out() == old(xml).out() + self.written(),
            final(xml).ns() == Seq::<(Seq<char>, Seq<char>)>::empty(),
    {
        match self {
            Self::AllProp => write_card_atom(xml, "allprop"),
            Self::Prop(v) => write_all(xml, v),
        }
    }
}

impl QWrite for AddressDataRequest {
    open spec fn qwrite_spec(&self, ns: Seq<(Seq<char>, Seq<char>)>) -> Seq<WView> {
        around(
            card_q("address-data"@),
            ns + type_attrs(self.content_type@, self.version@),
            match self.prop_kind {
                Some(k) => k.written(),
                None => Seq::empty(),
            },
        )
    }

    fn qwrite(&self, xml: &mut Writer) {
        let ghost o = xml.out();
        let ghost ns = xml.ns();
        let mut start = xml.create_card_element("address-data");
        push_type_attrs(&mut start, &self.content_type, &self.version);
        let end = start.to_end();
        let ghost q = start.qname@;
        let ghost a = attrs_view(start.attrs@);
        xml.write(WEvent::Start(start));
        let ghost mid = xml.out();
        if let Some(prop_kind) = &self.prop_kind {
            prop_kind.qwrite(xml);
        }
        xml.write(end);
        assert(xml.out() =~= o + self.qwrite_spec(ns));
    }
}

impl QWrite for AddressDataPayload {
    open spec fn qwrite_spec(&self, ns: Seq<(Seq<char>, Seq<char>)>) -> Seq<WView> {
        text_element(card_q("address-data"@), ns + type_attrs(self.content_type@, self.version@), self.payload@)
    }

    fn qwrite(&self, xml: &mut Writer) {
        let mut start = xml.create_card_element("address-data");
        push_type_attrs(&mut start, &self.content_type, &self.version);
        write_text_element(xml, start, self.payload.clone());
    }
}

impl QWrite for AddressDataType {
    open spec fn qwrite_spec(&self, ns: Seq<(Seq<char>, Seq<char>)>) -> Seq<WView> {
        card_atom("address-data-type"@, ns + type_attrs(self.content_type@, self.version@))
    }

    fn qwrite(&self, xml: &mut Writer) {
        let ghost o = xml.out();
        let ghost ns = xml.ns();
        let mut typ = xml.create_card_element("address-data-type");
        push_type_attrs(&mut typ, &self.content_type, &self.version);
        xml.write(WEvent::Empty(typ));
        assert(xml.out() =~= o + self.qwrite_spec(ns));
    }
}

impl Collation {
    /// Writes the collation's name as text.
    pub fn qwrite(&self, xml: &mut Writer)
        ensures
            final(xml).out() == old(xml).out().push(WView::Text(collation_name(*self))),
            final(xml).ns() == old(xml).ns(),
    {
        let name = self.as_str();
        xml.write(WEvent::Text(name.to_string()));
    }
}

impl QWrite for SupportedCollation {
    open spec fn qwrite_spec(&self, ns: Seq<(Seq<char>, Seq<char>)>) -> Seq<WView> {
        text_element(card_q("supported-collation"@), ns, collation_name(self.0))
    }

    fn qwrite(&self, xml: &mut Writer) {
        let ghost o = xml.out();
        let ghost ns = xml.ns();
        let start = xml.create_card_element("supported-collation");
        let end = start.to_end();
        xml.write(WEvent::Start(start));
        self.0.qwrite(xml);
        xml.write(end);
        assert(xml.out() =~= o + self.qwrite_spec(ns));
    }
}

/// The names of the CardDAV properties.
pub open spec fn card_property_name(p: PropertyRequest) -> Seq<char> {
    match p {
        PropertyRequest::AddressbookDescription => "addressbook-description"@,
        PropertyRequest::SupportedAddressData => "supported-address-data"@,
        PropertyRequest::MaxResourceSize => "max-resource-size"@,
        PropertyRequest::AddressbookHomeSet => "addressbook-home-set"@,
        PropertyRequest::PrincipalAddress => "principal-address"@,
        PropertyRequest::SupportedCollationSet => "supported-collation-set"@,
        PropertyRequest::AddressData(_) => "address-data"@,
    }
}

impl QWrite for PropertyRequest {
    open spec fn qwrite_spec(&self, ns: Seq<(Seq<char>, Seq<char>)>) -> Seq<WView> {
        match self {
            PropertyRequest::AddressData(req) => req.qwrite_spec(ns),
            _ => card_atom(card_property_name(*self), ns),
        }
    }

    fn qwrite(&self, xml: &mut Writer) {
        match self {
            Self::AddressbookDescription => write_card_atom(xml, "addressbook-description"),
            Self::SupportedAddressData => write_card_atom(xml, "supported-address-data"),
            Self::MaxResourceSize => write_card_atom(xml, "max-resource-size"),
            Self::AddressbookHomeSet => write_card_atom(xml, "addressbook-home-set"),
            Self::PrincipalAddress => write_card_atom(xml, "principal-address"),
            Self::SupportedCollationSet => write_card_atom(xml, "supported-collation-set"),
            Self::AddressData(req) => req.qwrite(xml),
        }
    }
}

/// The language attribute of a description, when it has one.
pub open spec fn lang_attr(lang: Option<String>) -> Seq<(Seq<char>, Seq<char>)> {
    match lang {
        Some(l) => seq![("xml:lang"@, l@)],
        None => Seq::empty(),
    }
}

impl QWrite for Property {
    open spec fn qwrite_spec(&self, ns: Seq<(Seq<char>, Seq<char>)>) -> Seq<WView> {
        match self {
            Property::AddressbookDescription { lang, text } => text_element(
                card_q("addressbook-description"@),
                ns + lang_attr(*lang),
                text@,
            ),
            Property::SupportedAddressData(types) => around(card_q("supported-address-data"@), ns, written_all(types@)),
            Property::MaxResourceSize(n) => text_element(card_q("max-resource-size"@), ns, decimal(*n as nat)),
            Property::AddressbookHomeSet(h) => around(card_q("addressbook-home-set"@), ns, h.qwrite_spec(Seq::empty())),
            Property::PrincipalAddress(h) => around(card_q("principal-address"@), ns, h.qwrite_spec(Seq::empty())),
            Property::SupportedCollationSet(cols) => around(
                card_q("supported-collation-set"@),
                ns,
                written_all(cols@),
            ),
            Property::AddressData(p) => p.qwrite_spec(ns),
        }
    }

    fn qwrite(&self, xml: &mut Writer) {
        match self {
            Self::AddressbookDescription { lang, text } => {
                let ghost ns = xml.ns();
                let mut start = xml.create_card_element("addressbook-description");
                if let Some(the_lang) = lang {
                    start.push_attribute("xml:lang", the_lang.as_str());
                }
                proof {
                    reveal_strlit("xml:lang");
                    assert(attrs_view(start.attrs@) =~= ns + lang_attr(*lang));
                }
                write_text_element(xml, start, text.clone());
            },
            Self::SupportedAddressData(many_types) => {
                let start = xml.create_card_element("supported-address-data");
                write_around_all(xml, start, many_types);
            },
            Self::MaxResourceSize(bytes) => {
                let start = xml.create_card_element("max-resource-size");
                write_text_element(xml, start, decimal_string(*bytes));
            },
            Self::AddressbookHomeSet(href) => {
                let start = xml.create_card_element("addressbook-home-set");
                write_around(xml, start, href);
            },
            Self::PrincipalAddress(href) => {
                let start = xml.create_card_element("principal-address");
                write_around(xml, start, href);
            },
            Self::SupportedCollationSet(many_collations) => {
                let start = xml.create_card_element("supported-collation-set");
                write_around_all(xml, start, many_collations);
            },
            Self::AddressData(inner) => inner.qwrite(xml),
        }
    }
}

/// The `test` attribute of a filter, when it is explicit.
pub open spec fn test_attr(t: WithDefault<FilterTest>) -> Seq<(Seq<char>, Seq<char>)> {
    match t {
        WithDefault::Value(v) => seq![("test"@, filter_test_name(v))],
        WithDefault::Default => Seq::empty(),
    }
}

/// Adds the `test` attribute of a filter to an element.
fn push_test_attr(start: &mut ElemStart, test: &WithDefault<FilterTest>)
    ensures
        final(start).qname@ == old(start).qname@,
        attrs_view(final(start).attrs@) == attrs_view(old(start).attrs@) + test_attr(*test),
{
    let ghost a0 = attrs_view(start.attrs@);
    if let WithDefault::Value(t) = test {
        start.push_attribute("test", t.as_str());
    }
    proof {
        reveal_strlit("test");
    }
    assert(attrs_view(start.attrs@) =~= a0 + test_attr(*test));
}

/// The attributes of a text match, when explicit: collation, negation,
/// match type.
pub open spec fn text_match_attrs(m: TextMatch) -> Seq<(Seq<char>, Seq<char>)> {
    (match m.collation {
        WithDefault::Value(c) => seq![("collation"@, collation_name(c))],
        WithDefault::Default => Seq::empty(),
    }) + (match m.negate_condition {
        WithDefault::Value(n) => seq![("negate-condition"@, yes_no_name(n == NegateCondition::Yes))],
        WithDefault::Default => Seq::empty(),
    }) + (match m.match_type {
        WithDefault::Value(t) => seq![("match-type"@, text_match_type_name(t))],
        WithDefault::Default => Seq::empty(),
    })
}

impl QWrite for TextMatch {
    open spec fn qwrite_spec(&self, ns: Seq<(Seq<char>, Seq<char>)>) -> Seq<WView> {
        text_element(card_q("text-match"@), ns + text_match_attrs(*self), self.text@)
    }

    fn qwrite(&self, xml: &mut Writer) {
        let ghost ns = xml.ns();
        let mut start = xml.create_card_element("text-match");
        let ghost a0 = attrs_view(start.attrs@);
        if let WithDefault::Value(collation) = &self.collation {
            start.push_attribute("collation", collation.as_str());
        }
        let ghost a1 = attrs_view(start.attrs@);
        if let WithDefault::Value(ng) = &self.negate_condition {
            start.push_attribute("negate-condition", ng.as_str());
        }
        let ghost a2 = attrs_view(start.attrs@);
        if let WithDefault::Value(match_type) = &self.match_type {
            start.push_attribute("match-type", match_type.as_str());
        }
        proof {
            reveal_strlit("collation");
            reveal_strlit("negate-condition");
            reveal_strlit("match-type");
            assert(attrs_view(start.attrs@) =~= ns + text_match_attrs(*self));
        }
        write_text_element(xml, start, self.text.clone());
    }
}

impl QWrite for ParamFilterMatch {
    open spec fn qwrite_spec(&self, ns: Seq<(Seq<char>, Seq<char>)>) -> Seq<WView> {
        match self {
            ParamFilterMatch::IsNotDefined => card_atom("is-not-defined"@, ns),
            ParamFilterMatch::Match(tm) => tm.qwrite_spec(ns),
        }
    }

    fn qwrite(&self, xml: &mut Writer) {
        match self {
            Self::IsNotDefined => write_card_atom(xml, "is-not-defined"),
            Self::Match(tm) => tm.qwrite(xml),
        }
    }
}

impl QWrite for ParamFilter {
    open spec fn qwrite_spec(&self, ns: Seq<(Seq<char>, Seq<char>)>) -> Seq<WView> {
        let attrs = ns + seq![("name"@, self.name.0@)];
        match self.rules {
            None => card_atom("param-filter"@, attrs),
            Some(r) => around(card_q("param-filter"@), attrs, r.qwrite_spec(Seq::empty())),
        }
    }

    fn qwrite(&self, xml: &mut Writer) {
        let ghost o = xml.out();
        let ghost ns = xml.ns();
        let mut start = xml.create_card_element("param-filter");
        start.push_attribute("name", self.name.0.as_str());
        proof {
            reveal_strlit("name");
            assert(attrs_view(start.attrs@) =~= ns + seq![("name"@, self.name.0@)]);
        }
        match &self.rules {
            None => {
                xml.write(WEvent::Empty(start));
                assert(xml.out() =~= o + self.qwrite_spec(ns));
            },
            Some(rules) => write_around(xml, start, rules),
        }
    }
}

impl PropFilterRules {
    /// What the rules of a prop-filter write inside it: nothing, an
    /// `<C:is-not-defined/>`, or the text matches then the parameter
    /// filters.
    pub open spec fn written(&self) -> Seq<WView> {
        match self {
            PropFilterRules::Empty => Seq::empty(),
            PropFilterRules::IsNotDefined => card_atom("is-not-defined"@, Seq::empty()),
            PropFilterRules::Match { text_match, param_filter } => written_all(text_match@) + written_all(
                param_filter@,
            ),
        }
    }

    /// Writes the rules of a prop-filter inside it.
    pub fn qwrite(&self, xml: &mut Writer)
        requires
            old(xml).ns() == Seq::<(Seq<char>, Seq<char>)>::empty(),
        ensures
            final(xml).out() == old(xml).out() + self.written(),
            final(xml).ns() == Seq::<(Seq<char>, Seq<char>)>::empty(),
    {
        let ghost o = xml.out();
        match self {
            Self::Empty => {
                assert(xml.out() =~= o + self.written());
            },
            Self::IsNotDefined => write_card_atom(xml, "is-not-defined"),
            Self::Match { text_match, param_filter } => {
                write_all(xml, text_match);
                write_all(xml, param_filter);
                assert(xml.out() =~= o + self.written());
            },
        }
    }
}

impl QWrite for PropFilter {
    open spec fn qwrite_spec(&self, ns: Seq<(Seq<char>, Seq<char>)>) -> Seq<WView> {
        around(
            card_q("prop-filter"@),
            ns + seq![("name"@, property_name_text(self.name))] + test_attr(self.test),
            self.rules.written(),
        )
    }

    fn qwrite(&self, xml: &mut Writer) {
        let ghost o = xml.out();
        let ghost ns = xml.ns();
        let mut start = xml.create_card_element("prop-filter");
        let name = self.name.to_text();
        start.push_attribute("name", name.as_str());
        let ghost a1 = attrs_view(start.attrs@);
        proof {
            reveal_strlit("name");
            assert(a1 =~= ns + seq![("name"@, property_name_text(self.name))]);
        }
        push_test_attr(&mut start, &self.test);
        let ghost q = start.qname@;
        let ghost a = attrs_view(start.attrs@);
        let end = start.to_end();
        xml.write(WEvent::Start(start));
        self.rules.qwrite(xml);
        xml.write(end);
        assert(xml.out() =~= o + self.qwrite_spec(ns));
    }
}

impl QWrite for Filter {
    open spec fn qwrite_spec(&self, ns: Seq<(Seq<char>, Seq<char>)>) -> Seq<WView> {
        around(card_q("filter"@), ns + test_attr(self.test), written_all(self.prop_filters@))
    }

    fn qwrite(&self, xml: &mut Writer) {
        let mut start = xml.create_card_element("filter");
        push_test_attr(&mut start, &self.test);
        write_around_all(xml, start, &self.prop_filters);
    }
}

impl QWrite for Limit {
    open spec fn qwrite_spec(&self, ns: Seq<(Seq<char>, Seq<char>)>) -> Seq<WView> {
        around(
            card_q("limit"@),
            ns,
            text_element(card_q("nresults"@), Seq::empty(), decimal(self.nresults as nat)),
        )
    }

    fn qwrite(&self, xml: &mut Writer) {
        let ghost o = xml.out();
        let ghost ns = xml.ns();
        let start = xml.create_card_element("limit");
        let end = start.to_end();
        xml.write(WEvent::Start(start));
        let inner = xml.create_card_element("nresults");
        write_text_element(xml, inner, decimal_string(self.nresults));
        xml.write(end);
        assert(xml.out() =~= o + self.qwrite_spec(ns));
    }
}

/// The names of the CardDAV condition codes without content.
pub open spec fn card_violation_name(v: Violation) -> Seq<char> {
    match v {
        Violation::SupportedAddressDataConversion => "supported-address-data-conversion"@,
        Violation::SupportedAddressData => "supported-address-data"@,
        Violation::ValidAddressData => "valid-address-data"@,
        Violation::AddressbookCollectionLocationOk => "addressbook-collection-location-ok"@,
        Violation::MaxResourceSize => "max-resource-size"@,
        Violation::SupportedCollation => "supported-collation"@,
        _ => Seq::empty(),
    }
}

impl QWrite for Violation {
    open spec fn qwrite_spec(&self, ns: Seq<(Seq<char>, Seq<char>)>) -> Seq<WView> {
        match self {
            Violation::NoUidConflict(h) => around(card_q("no-uid-conflict"@), ns, h.qwrite_spec(Seq::empty())),
            Violation::SupportedFilter { prop_filters, param_filters } => around(
                card_q("supported-filter"@),
                ns,
                written_all(prop_filters@) + written_all(param_filters@),
            ),
            Violation::NumberOfMatchesWithinLimits => seq![
                WView::Empty(seq!['D', ':'] + "number-of-matches-within-limits"@, ns),
            ],
            _ => card_atom(card_violation_name(*self), ns),
        }
    }

    fn qwrite(&self, xml: &mut Writer) {
        match self {
            Self::SupportedAddressDataConversion => write_card_atom(xml, "supported-address-data-conversion"),
            Self::SupportedAddressData => write_card_atom(xml, "supported-address-data"),
            Self::ValidAddressData => write_card_atom(xml, "valid-address-data"),
            Self::NoUidConflict(href) => {
                let start = xml.create_card_element("no-uid-conflict");
                write_around(xml, start, href);
            },
            Self::AddressbookCollectionLocationOk => write_card_atom(xml, "addressbook-collection-location-ok"),
            Self::MaxResourceSize => write_card_atom(xml, "max-resource-size"),
            Self::SupportedCollation => write_card_atom(xml, "supported-collation"),
            Self::SupportedFilter { prop_filters, param_filters } => {
                let ghost o = xml.out();
                let ghost ns = xml.ns();
                let start = xml.create_card_element("supported-filter");
                let end = start.to_end();
                xml.write(WEvent::Start(start));
                write_all(xml, prop_filters);
                write_all(xml, param_filters);
                xml.write(end);
                assert(xml.out() =~= o + self.qwrite_spec(ns));
            },
            Self::NumberOfMatchesWithinLimits => {
                let ghost o = xml.out();
                xml.write_dav_atom("number-of-matches-within-limits");
                assert(xml.out() =~= o + self.qwrite_spec(old(xml).ns()));
            },
        }
    }
}

} // verus!
