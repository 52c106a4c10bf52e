//! CardDAV (RFC 6352) elements.
use vstd::prelude::*;

use super::extension::Extension;
use super::types as dav;
use super::xml::{views, WithDefault};
use crate::text::{chars_to_string, str_eq};

verus! {

// --- REPORT part ---

/// The names of the CardDAV reports.
#[derive(Debug, PartialEq, Clone)]
pub enum ReportTypeName {
    Query,
    Multiget,
}

/// A CardDAV report request.
#[derive(Debug, PartialEq, Clone)]
pub enum ReportType<E: Extension> {
    Query(AddressbookQuery<E>),
    Multiget(AddressbookMultiget<E>),
}

// --- Hooks into WebDAV ---

/// The addressbook resource type.
#[derive(Debug, PartialEq, Clone)]
pub enum ResourceType {
    Addressbook,
}

/// The CardDAV property names.
#[derive(Debug, PartialEq, Clone)]
pub enum PropertyRequest {
    AddressbookDescription,
    SupportedAddressData,
    MaxResourceSize,
    AddressbookHomeSet,
    PrincipalAddress,
    SupportedCollationSet,
    AddressData(AddressDataRequest),
}

/// The CardDAV property values.
#[derive(Debug, PartialEq, Clone)]
pub enum Property {
    AddressbookDescription { lang: Option<String>, text: String },
    SupportedAddressData(Vec<AddressDataType>),
    MaxResourceSize(u64),
    AddressbookHomeSet(dav::Href),
    PrincipalAddress(dav::Href),
    SupportedCollationSet(Vec<SupportedCollation>),
    AddressData(AddressDataPayload),
}

/// The CardDAV precondition and postcondition codes.
#[derive(Debug, PartialEq, Clone)]
pub enum Violation {
    SupportedAddressDataConversion,
    SupportedAddressData,
    ValidAddressData,
    NoUidConflict(dav::Href),
    AddressbookCollectionLocationOk,
    MaxResourceSize,
    SupportedCollation,
    SupportedFilter { prop_filters: Vec<PropFilter>, param_filters: Vec<ParamFilter> },
    NumberOfMatchesWithinLimits,
}

/// addressbook-query REPORT.
#[derive(Debug, PartialEq, Clone)]
pub struct AddressbookQuery<E: Extension> {
    pub selector: Option<AddressbookSelector<E>>,
    pub filter: Filter,
    pub limit: Option<Limit>,
}

/// address-data as asked for in a request.
#[derive(Debug, PartialEq, Clone)]
pub struct AddressDataRequest {
    pub prop_kind: Option<PropKind>,
    pub content_type: WithDefault<ContentType>,
    pub version: WithDefault<Version>,
}

/// address-data as returned in a response.
#[derive(Debug, PartialEq, Clone)]
pub struct AddressDataPayload {
    pub payload: String,
    pub content_type: WithDefault<ContentType>,
    pub version: WithDefault<Version>,
}

/// addressbook-multiget REPORT.
#[derive(Debug, PartialEq, Clone)]
pub struct AddressbookMultiget<E: Extension> {
    pub selector: Option<AddressbookSelector<E>>,
    pub href: Vec<dav::Href>,
}

// --- Inner XML elements ---

/// address-data-type: a media type and version the server accepts.
#[derive(Debug, PartialEq, Clone)]
pub struct AddressDataType {
    pub content_type: WithDefault<ContentType>,
    pub version: WithDefault<Version>,
}

/// supported-collation: one collation the server supports.
#[derive(Debug, PartialEq, Clone)]
pub struct SupportedCollation(pub Collation);

/// A text collation (RFC 4790).
#[derive(Debug, PartialEq, Clone)]
pub enum Collation {
    UnicodeCaseMap,
    AsciiCaseMap,
    Unknown(String),
}

/// The registered name of a collation.
pub open spec fn collation_name(c: Collation) -> Seq<char> {
    match c {
        Collation::UnicodeCaseMap => "i;unicode-casemap"@,
        Collation::AsciiCaseMap => "i;ascii-casemap"@,
        Collation::Unknown(s) => s@,
    }
}

/// The collation that a name stands for.
pub open spec fn collation_of(v: String) -> Collation {
    if v@ == "i;unicode-casemap"@ {
        Collation::UnicodeCaseMap
    } else if v@ == "i;ascii-casemap"@ {
        Collation::AsciiCaseMap
    } else {
        Collation::Unknown(v)
    }
}

impl Collation {
    /// The collation's registered name.
    pub fn as_str<'a>(&'a self) -> (r: &'a str)
        ensures
            r@ == collation_name(*self),
    {
        match self {
            Self::UnicodeCaseMap => "i;unicode-casemap",
            Self::AsciiCaseMap => "i;ascii-casemap",
            Self::Unknown(c) => c.as_str(),
        }
    }

    /// The collation named `v`; names that are not registered give `Unknown`.
    pub fn new(v: String) -> (r: Self)
        ensures
            r == collation_of(v),
    {
        if str_eq(v.as_str(), "i;unicode-casemap") {
            Self::UnicodeCaseMap
        } else if str_eq(v.as_str(), "i;ascii-casemap") {
            Self::AsciiCaseMap
        } else {
            Self::Unknown(v)
        }
    }
}

impl Default for Collation {
    fn default() -> (r: Self)
        ensures
            r == Collation::UnicodeCaseMap,
    {
        Collation::UnicodeCaseMap
    }
}

/// filter: the prop-filters of a query and how they combine.
#[derive(Debug, PartialEq, Clone)]
pub struct Filter {
    pub prop_filters: Vec<PropFilter>,
    pub test: WithDefault<FilterTest>,
}

/// How several filters combine.
#[derive(Debug, PartialEq, Clone, Copy)]
pub enum FilterTest {
    AnyOf,
    AllOf,
}

/// The attribute value of a filter test.
pub open spec fn filter_test_name(t: FilterTest) -> Seq<char> {
    match t {
        FilterTest::AnyOf => "anyof"@,
        FilterTest::AllOf => "allof"@,
    }
}

/// The filter test an attribute value stands for.
pub open spec fn filter_test_of(s: Seq<char>) -> Option<FilterTest> {
    if s == "anyof"@ {
        Some(FilterTest::AnyOf)
    } else if s == "allof"@ {
        Some(FilterTest::AllOf)
    } else {
        None
    }
}

impl FilterTest {
    /// The attribute value of this test.
    pub fn as_str(&self) -> (r: &'static str)
        ensures
            r@ == filter_test_name(*self),
    {
        match self {
            Self::AnyOf => "anyof",
            Self::AllOf => "allof",
        }
    }

    /// Reads an attribute value; any other text is refused.
    pub fn parse(s: &str) -> (r: Option<Self>)
        ensures
            r == filter_test_of(s@),
    {
        if str_eq(s, "anyof") {
            Some(Self::AnyOf)
        } else if str_eq(s, "allof") {
            Some(Self::AllOf)
        } else {
            None
        }
    }
}

impl Default for FilterTest {
    fn default() -> (r: Self)
        ensures
            r == FilterTest::AnyOf,
    {
        FilterTest::AnyOf
    }
}

/// prop-filter: a condition on one vCard property.
#[derive(Debug, PartialEq, Clone)]
pub struct PropFilter {
    pub name: PropertyName,
    pub test: WithDefault<FilterTest>,
    pub rules: PropFilterRules,
}

/// What a prop-filter asks of its property.
#[derive(Debug, PartialEq, Clone)]
pub enum PropFilterRules {
    /// The property must exist.
    Empty,
    /// The property must not exist.
    IsNotDefined,
    /// The property must match text and parameter conditions.
    Match { text_match: Vec<TextMatch>, param_filter: Vec<ParamFilter> },
}

/// text-match: a condition on a text value.
#[derive(Debug, PartialEq, Clone)]
pub struct TextMatch {
    pub collation: WithDefault<Collation>,
    pub negate_condition: WithDefault<NegateCondition>,
    pub match_type: WithDefault<TextMatchType>,
    pub text: String,
}

/// How a text-match compares.
#[derive(Debug, PartialEq, Clone, Copy)]
pub enum TextMatchType {
    Equals,
    Contains,
    StartsWith,
    EndsWith,
}

/// The attribute value of a match type.
pub open spec fn text_match_type_name(t: TextMatchType) -> Seq<char> {
    match t {
        TextMatchType::Equals => "equals"@,
        TextMatchType::Contains => "contains"@,
        TextMatchType::StartsWith => "starts-with"@,
        TextMatchType::EndsWith => "ends-with"@,
    }
}

/// The match type an attribute value stands for.
pub open spec fn text_match_type_of(s: Seq<char>) -> Option<TextMatchType> {
    if s == "equals"@ {
        Some(TextMatchType::Equals)
    } else if s == "contains"@ {
        Some(TextMatchType::Contains)
    } else if s == "starts-with"@ {
        Some(TextMatchType::StartsWith)
    } else if s == "ends-with"@ {
        Some(TextMatchType::EndsWith)
    } else {
        None
    }
}

impl TextMatchType {
    /// The attribute value of this match type.
    pub fn as_str(&self) -> (r: &'static str)
        ensures
            r@ == text_match_type_name(*self),
    {
        match self {
            Self::Equals => "equals",
            Self::Contains => "contains",
            Self::StartsWith => "starts-with",
            Self::EndsWith => "ends-with",
        }
    }

    /// Reads an attribute value; any other text is refused.
    pub fn parse(s: &str) -> (r: Option<Self>)
        ensures
            r == text_match_type_of(s@),
    {
        if str_eq(s, "equals") {
            Some(Self::Equals)
        } else if str_eq(s, "contains") {
            Some(Self::Contains)
        } else if str_eq(s, "starts-with") {
            Some(Self::StartsWith)
        } else if str_eq(s, "ends-with") {
            Some(Self::EndsWith)
        } else {
            None
        }
    }
}

impl Default for TextMatchType {
    fn default() -> (r: Self)
        ensures
            r == TextMatchType::Contains,
    {
        TextMatchType::Contains
    }
}

/// Whether a text-match is negated.
#[derive(Debug, PartialEq, Clone)]
pub enum NegateCondition {
    Yes,
    No,
}

/// The attribute value of a yes/no flag.
pub open spec fn yes_no_name(yes: bool) -> Seq<char> {
    if yes {
        "yes"@
    } else {
        "no"@
    }
}

/// The flag a yes/no attribute value stands for.
pub open spec fn yes_no_of(s: Seq<char>) -> Option<bool> {
    if s == "yes"@ {
        Some(true)
    } else if s == "no"@ {
        Some(false)
    } else {
        None
    }
}

/// Reads "yes" or "no".
fn parse_yes_no(s: &str) -> (r: Option<bool>)
    ensures
        r == yes_no_of(s@),
{
    if str_eq(s, "yes") {
        Some(true)
    } else if str_eq(s, "no") {
        Some(false)
    } else {
        None
    }
}

impl NegateCondition {
    /// The attribute value of this flag.
    pub fn as_str(&self) -> (r: &'static str)
        ensures
            r@ == yes_no_name(*self == NegateCondition::Yes),
    {
        match self {
            Self::Yes => "yes",
            Self::No => "no",
        }
    }

    /// Reads an attribute value; any other text is refused.
    pub fn parse(s: &str) -> (r: Option<Self>)
        ensures
            r == match yes_no_of(s@) {
                Some(true) => Some(NegateCondition::Yes),
                Some(false) => Some(NegateCondition::No),
                None => None,
            },
    {
        match parse_yes_no(s) {
            Some(true) => Some(Self::Yes),
            Some(false) => Some(Self::No),
            None => None,
        }
    }
}

impl Default for NegateCondition {
    fn default() -> (r: Self)
        ensures
            r == NegateCondition::No,
    {
        NegateCondition::No
    }
}

/// param-filter: a condition on a property parameter.
#[derive(Debug, PartialEq, Clone)]
pub struct ParamFilter {
    pub name: PropertyParameterName,
    pub rules: Option<ParamFilterMatch>,
}

/// What a param-filter asks of its parameter.
#[derive(Debug, PartialEq, Clone)]
pub enum ParamFilterMatch {
    IsNotDefined,
    Match(TextMatch),
}

/// limit: how many results to return.
#[derive(Debug, PartialEq, Clone)]
pub struct Limit {
    pub nresults: u64,
}

/// Which properties a report returns.
#[derive(Debug, PartialEq, Clone)]
pub enum AddressbookSelector<E: Extension> {
    AllProp,
    PropName,
    Prop(dav::PropName<E>),
}

/// Which vCard properties address-data returns.
#[derive(Debug, PartialEq, Clone)]
pub enum PropKind {
    AllProp,
    Prop(Vec<CardProp>),
}

/// One vCard property of address-data.
#[derive(Debug, PartialEq, Clone)]
pub struct CardProp {
    pub name: PropertyName,
    pub novalue: WithDefault<NoValue>,
}

/// Whether a property is returned without its value.
#[derive(Debug, PartialEq, Clone)]
pub enum NoValue {
    Yes,
    No,
}

impl NoValue {
    /// The attribute value of this flag.
    pub fn as_str(&self) -> (r: &'static str)
        ensures
            r@ == yes_no_name(*self == NoValue::Yes),
    {
        match self {
            Self::Yes => "yes",
            Self::No => "no",
        }
    }

    /// Reads an attribute value; any other text is refused.
    pub fn parse(s: &str) -> (r: Option<Self>)
        ensures
            r == match yes_no_of(s@) {
                Some(true) => Some(NoValue::Yes),
                Some(false) => Some(NoValue::No),
                None => None,
            },
    {
        match parse_yes_no(s) {
            Some(true) => Some(Self::Yes),
            Some(false) => Some(Self::No),
            None => None,
        }
    }
}

impl Default for NoValue {
    fn default() -> (r: Self)
        ensures
            r == NoValue::No,
    {
        NoValue::No
    }
}

/// A media type.
#[derive(Debug, PartialEq, Clone)]
pub struct ContentType(pub String);

impl Default for ContentType {
    fn default() -> (r: Self)
        ensures
            r.0@ == "text/vcard"@,
    {
        ContentType("text/vcard".to_string())
    }
}

/// A vCard version.
#[derive(Debug, PartialEq, Clone)]
pub struct Version(pub String);

impl Default for Version {
    fn default() -> (r: Self)
        ensures
            r.0@ == "3.0"@,
    {
        Version("3.0".to_string())
    }
}

/// The name of a vCard property parameter.
#[derive(Debug, PartialEq, Clone)]
pub struct PropertyParameterName(pub String);

/// The name of a vCard property, with its optional group.
#[derive(Debug, PartialEq, Clone)]
pub struct PropertyName {
    pub group: Option<String>,
    pub name: String,
}

/// The index of the first '.' in `s`, if any.
pub open spec fn first_dot(s: Seq<char>) -> Option<int> {
    if exists|i: int| 0 <= i < s.len() && s[i] == '.' {
        Some(choose|i: int| 0 <= i < s.len() && s[i] == '.' && forall|j: int| 0 <= j < i ==> s[j] != '.')
    } else {
        None
    }
}

/// The text form of a property name: `group.name`, or `name` alone.
pub open spec fn property_name_text(p: PropertyName) -> Seq<char> {
    match p.group {
        None => p.name@,
        Some(g) => g@ + seq!['.'] + p.name@,
    }
}

impl PropertyName {
    /// Splits a property name at its first '.', into group and name.
    pub fn parse(s: &str) -> (r: PropertyName)
        ensures
            match first_dot(s@) {
                None => r.group is None && r.name@ == s@,
                Some(i) => r.group is Some && r.group->0@ == s@.take(i) && r.name@ == s@.skip(i + 1),
            },
            r@ == property_name_of(s@),
    {
        let cs = crate::text::chars_of(s);
        let mut i: usize = 0;
        while i < cs.len()
            invariant
                cs@ == s@,
                i <= cs@.len(),
                forall|j: int| 0 <= j < i ==> cs@[j] != '.',
            decreases cs@.len() - i,
        {
            if cs[i] == '.' {
                let ghost k = i as int;
                proof {
                    let c = choose|c: int| 0 <= c < s@.len() && s@[c] == '.' && forall|j: int| 0 <= j < c ==> s@[j] != '.';
                    assert(0 <= k < s@.len() && s@[k] == '.' && forall|j: int| 0 <= j < k ==> s@[j] != '.');
                    if c < k {
                    } else if c > k {
                    }
                    assert(c == k);
                }
                let group = chars_to_string(&cs, 0, i);
                let name = chars_to_string(&cs, i + 1, cs.len());
                return PropertyName { group: Some(group), name };
            }
            i = i + 1;
        }
        PropertyName { group: None, name: s.to_string() }
    }

    /// The text form of the name, as `Display` writes it.
    pub fn to_text(&self) -> (r: String)
        ensures
            r@ == property_name_text(*self),
    {
        match &self.group {
            None => self.name.clone(),
            Some(g) => {
                let mut out = g.clone();
                out.append(".");
                out.append(self.name.as_str());
                proof {
                    reveal_strlit(".");
                }
                out
            }
        }
    }
}
// --- Views ---

impl<T: View> View for WithDefault<T> {
    type V = WithDefault<T::V>;

    open spec fn view(&self) -> WithDefault<T::V> {
        match self {
            WithDefault::Default => WithDefault::Default,
            WithDefault::Value(x) => WithDefault::Value(x@),
        }
    }
}

impl View for ContentType {
    type V = Seq<char>;

    open spec fn view(&self) -> Seq<char> {
        self.0@
    }
}

impl View for Version {
    type V = Seq<char>;

    open spec fn view(&self) -> Seq<char> {
        self.0@
    }
}

impl View for NoValue {
    type V = NoValue;

    open spec fn view(&self) -> NoValue {
        *self
    }
}

/// A property name by its characters.
pub struct PropertyNameView {
    pub group: Option<Seq<char>>,
    pub name: Seq<char>,
}

impl View for PropertyName {
    type V = PropertyNameView;

    open spec fn view(&self) -> PropertyNameView {
        PropertyNameView {
            group: match self.group {
                Some(g) => Some(g@),
                None => None,
            },
            name: self.name@,
        }
    }
}

/// The property name a text stands for: split at its first '.'.
pub open spec fn property_name_of(s: Seq<char>) -> PropertyNameView {
    match first_dot(s) {
        None => PropertyNameView { group: None, name: s },
        Some(i) => PropertyNameView { group: Some(s.take(i)), name: s.skip(i + 1) },
    }
}

/// A requested vCard property by its view.
pub struct CardPropView {
    pub name: PropertyNameView,
    pub novalue: WithDefault<NoValue>,
}

impl View for CardProp {
    type V = CardPropView;

    open spec fn view(&self) -> CardPropView {
        CardPropView { name: self.name@, novalue: self.novalue@ }
    }
}

/// Which vCard properties to return, by their views.
pub enum PropKindView {
    AllProp,
    Prop(Seq<CardPropView>),
}

impl View for PropKind {
    type V = PropKindView;

    open spec fn view(&self) -> PropKindView {
        match self {
            PropKind::AllProp => PropKindView::AllProp,
            PropKind::Prop(v) => PropKindView::Prop(views(v@)),
        }
    }
}

/// address-data as asked for, by its view.
pub struct AddressDataRequestView {
    pub prop_kind: Option<PropKindView>,
    pub content_type: WithDefault<Seq<char>>,
    pub version: WithDefault<Seq<char>>,
}

impl View for AddressDataRequest {
    type V = AddressDataRequestView;

    open spec fn view(&self) -> AddressDataRequestView {
        AddressDataRequestView {
            prop_kind: match self.prop_kind {
                Some(k) => Some(k@),
                None => None,
            },
            content_type: self.content_type@,
            version: self.version@,
        }
    }
}

/// A CardDAV property name by its view.
pub enum PropertyRequestView {
    AddressbookDescription,
    SupportedAddressData,
    MaxResourceSize,
    AddressbookHomeSet,
    PrincipalAddress,
    SupportedCollationSet,
    AddressData(AddressDataRequestView),
}

impl View for PropertyRequest {
    type V = PropertyRequestView;

    open spec fn view(&self) -> PropertyRequestView {
        match self {
            PropertyRequest::AddressbookDescription => PropertyRequestView::AddressbookDescription,
            PropertyRequest::SupportedAddressData => PropertyRequestView::SupportedAddressData,
            PropertyRequest::MaxResourceSize => PropertyRequestView::MaxResourceSize,
            PropertyRequest::AddressbookHomeSet => PropertyRequestView::AddressbookHomeSet,
            PropertyRequest::PrincipalAddress => PropertyRequestView::PrincipalAddress,
            PropertyRequest::SupportedCollationSet => PropertyRequestView::SupportedCollationSet,
            PropertyRequest::AddressData(a) => PropertyRequestView::AddressData(a@),
        }
    }
}

impl View for ResourceType {
    type V = ResourceType;

    open spec fn view(&self) -> ResourceType {
        *self
    }
}

impl View for ReportTypeName {
    type V = ReportTypeName;

    open spec fn view(&self) -> ReportTypeName {
        *self
    }
}

/// address-data-type by its view.
pub struct AddressDataTypeView {
    pub content_type: WithDefault<Seq<char>>,
    pub version: WithDefault<Seq<char>>,
}

impl View for AddressDataType {
    type V = AddressDataTypeView;

    open spec fn view(&self) -> AddressDataTypeView {
        AddressDataTypeView { content_type: self.content_type@, version: self.version@ }
    }
}

/// A collation by its view.
pub enum CollationView {
    UnicodeCaseMap,
    AsciiCaseMap,
    Unknown(Seq<char>),
}

impl View for Collation {
    type V = CollationView;

    open spec fn view(&self) -> CollationView {
        match self {
            Collation::UnicodeCaseMap => CollationView::UnicodeCaseMap,
            Collation::AsciiCaseMap => CollationView::AsciiCaseMap,
            Collation::Unknown(s) => CollationView::Unknown(s@),
        }
    }
}

/// The collation a name stands for, by its view.
pub open spec fn collation_view_of(v: Seq<char>) -> CollationView {
    if v == "i;unicode-casemap"@ {
        CollationView::UnicodeCaseMap
    } else if v == "i;ascii-casemap"@ {
        CollationView::AsciiCaseMap
    } else {
        CollationView::Unknown(v)
    }
}

impl View for SupportedCollation {
    type V = CollationView;

    open spec fn view(&self) -> CollationView {
        self.0@
    }
}

/// address-data as returned, by its view.
pub struct AddressDataPayloadView {
    pub payload: Seq<char>,
    pub content_type: WithDefault<Seq<char>>,
    pub version: WithDefault<Seq<char>>,
}

impl View for AddressDataPayload {
    type V = AddressDataPayloadView;

    open spec fn view(&self) -> AddressDataPayloadView {
        AddressDataPayloadView { payload: self.payload@, content_type: self.content_type@, version: self.version@ }
    }
}

/// A CardDAV property value by its view.
pub enum PropertyView {
    AddressbookDescription { lang: Option<Seq<char>>, text: Seq<char> },
    SupportedAddressData(Seq<AddressDataTypeView>),
    MaxResourceSize(u64),
    AddressbookHomeSet(Seq<char>),
    PrincipalAddress(Seq<char>),
    SupportedCollationSet(Seq<CollationView>),
    AddressData(AddressDataPayloadView),
}

impl View for Property {
    type V = PropertyView;

    open spec fn view(&self) -> PropertyView {
        match self {
            Property::AddressbookDescription { lang, text } => PropertyView::AddressbookDescription {
                lang: match lang {
                    Some(l) => Some(l@),
                    None => None,
                },
                text: text@,
            },
            Property::SupportedAddressData(v) => PropertyView::SupportedAddressData(views(v@)),
            Property::MaxResourceSize(n) => PropertyView::MaxResourceSize(*n),
            Property::AddressbookHomeSet(h) => PropertyView::AddressbookHomeSet(h@),
            Property::PrincipalAddress(h) => PropertyView::PrincipalAddress(h@),
            Property::SupportedCollationSet(v) => PropertyView::SupportedCollationSet(views(v@)),
            Property::AddressData(a) => PropertyView::AddressData(a@),
        }
    }
}

/// A CardDAV condition code by its view.
pub enum ViolationView {
    SupportedAddressDataConversion,
    SupportedAddressData,
    ValidAddressData,
    NoUidConflict(Seq<char>),
    AddressbookCollectionLocationOk,
    MaxResourceSize,
    SupportedCollation,
    SupportedFilter { prop_filters: Seq<PropFilterView>, param_filters: Seq<ParamFilterView> },
    NumberOfMatchesWithinLimits,
}

impl View for Violation {
    type V = ViolationView;

    open spec fn view(&self) -> ViolationView {
        match self {
            Violation::SupportedAddressDataConversion => ViolationView::SupportedAddressDataConversion,
            Violation::SupportedAddressData => ViolationView::SupportedAddressData,
            Violation::ValidAddressData => ViolationView::ValidAddressData,
            Violation::NoUidConflict(h) => ViolationView::NoUidConflict(h@),
            Violation::AddressbookCollectionLocationOk => ViolationView::AddressbookCollectionLocationOk,
            Violation::MaxResourceSize => ViolationView::MaxResourceSize,
            Violation::SupportedCollation => ViolationView::SupportedCollation,
            Violation::SupportedFilter { prop_filters, param_filters } => ViolationView::SupportedFilter {
                prop_filters: views(prop_filters@),
                param_filters: views(param_filters@),
            },
            Violation::NumberOfMatchesWithinLimits => ViolationView::NumberOfMatchesWithinLimits,
        }
    }
}

impl View for FilterTest {
    type V = FilterTest;

    open spec fn view(&self) -> FilterTest {
        *self
    }
}

impl View for NegateCondition {
    type V = NegateCondition;

    open spec fn view(&self) -> NegateCondition {
        *self
    }
}

impl View for TextMatchType {
    type V = TextMatchType;

    open spec fn view(&self) -> TextMatchType {
        *self
    }
}

/// text-match by its view.
pub struct TextMatchView {
    pub collation: WithDefault<CollationView>,
    pub negate_condition: WithDefault<NegateCondition>,
    pub match_type: WithDefault<TextMatchType>,
    pub text: Seq<char>,
}

impl View for TextMatch {
    type V = TextMatchView;

    open spec fn view(&self) -> TextMatchView {
        TextMatchView {
            collation: self.collation@,
            negate_condition: self.negate_condition@,
            match_type: self.match_type@,
            text: self.text@,
        }
    }
}

/// What a param-filter asks, by its view.
pub enum ParamFilterMatchView {
    IsNotDefined,
    Match(TextMatchView),
}

impl View for ParamFilterMatch {
    type V = ParamFilterMatchView;

    open spec fn view(&self) -> ParamFilterMatchView {
        match self {
            ParamFilterMatch::IsNotDefined => ParamFilterMatchView::IsNotDefined,
            ParamFilterMatch::Match(t) => ParamFilterMatchView::Match(t@),
        }
    }
}

/// param-filter by its view.
pub struct ParamFilterView {
    pub name: Seq<char>,
    pub rules: Option<ParamFilterMatchView>,
}

impl View for ParamFilter {
    type V = ParamFilterView;

    open spec fn view(&self) -> ParamFilterView {
        ParamFilterView {
            name: self.name.0@,
            rules: match self.rules {
                Some(r) => Some(r@),
                None => None,
            },
        }
    }
}

/// What a prop-filter asks, by its view.
pub enum PropFilterRulesView {
    Empty,
    IsNotDefined,
    Match { text_match: Seq<TextMatchView>, param_filter: Seq<ParamFilterView> },
}

impl View for PropFilterRules {
    type V = PropFilterRulesView;

    open spec fn view(&self) -> PropFilterRulesView {
        match self {
            PropFilterRules::Empty => PropFilterRulesView::Empty,
            PropFilterRules::IsNotDefined => PropFilterRulesView::IsNotDefined,
            PropFilterRules::Match { text_match, param_filter } => PropFilterRulesView::Match {
                text_match: views(text_match@),
                param_filter: views(param_filter@),
            },
        }
    }
}

/// prop-filter by its view.
pub struct PropFilterView {
    pub name: PropertyNameView,
    pub test: WithDefault<FilterTest>,
    pub rules: PropFilterRulesView,
}

impl View for PropFilter {
    type V = PropFilterView;

    open spec fn view(&self) -> PropFilterView {
        PropFilterView { name: self.name@, test: self.test@, rules: self.rules@ }
    }
}

/// filter by its view.
pub struct FilterView {
    pub prop_filters: Seq<PropFilterView>,
    pub test: WithDefault<FilterTest>,
}

impl View for Filter {
    type V = FilterView;

    open spec fn view(&self) -> FilterView {
        FilterView { prop_filters: views(self.prop_filters@), test: self.test@ }
    }
}

impl View for Limit {
    type V = u64;

    open spec fn view(&self) -> u64 {
        self.nresults
    }
}

} // verus!
