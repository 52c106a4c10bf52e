//! The concrete DAV dialects: which extension vocabulary each one plugs in.
use vstd::prelude::*;

use super::acltypes as acl;
use super::caltypes as cal;
use super::cardtypes as card;
use super::error::ParsingError;
use super::extension::Extension;
use super::synctypes as sync;
use super::versioningtypes as vers;
use super::versioningdecoder::VersPropertyView;
use super::xml::{QRead, RState, Reader, XmlEvent};

verus! {

/// An extension point that is switched off: no value of it can be built
/// outside this module.
#[derive(Debug, PartialEq, Clone)]
pub struct Disabled(bool);

impl View for Disabled {
    type V = ();

    open spec fn view(&self) -> () {
        ()
    }
}

impl QRead for Disabled {
    /// A switched-off extension point reads nothing.
    open spec fn qread_spec(evs: Seq<XmlEvent>, st: RState) -> (Result<(), ParsingError>, RState) {
        (Err(ParsingError::Recoverable), st)
    }

    fn qread(xml: &mut Reader) -> (r: Result<Self, ParsingError>) {
        Err(ParsingError::Recoverable)
    }
}

/// Plain WebDAV, with every extension point switched off.
#[derive(Debug, PartialEq, Clone)]
pub struct Core {}

impl Extension for Core {
    type Error = Disabled;
    type Property = Disabled;
    type PropertyRequest = Disabled;
    type ResourceType = Disabled;
    type ReportType = Disabled;
    type ReportTypeName = Disabled;
    type Multistatus = Disabled;
}

/// WebDAV with CardDAV (RFC 6352).
#[derive(Debug, PartialEq, Clone)]
pub struct Addressbook {}

impl Extension for Addressbook {
    type Error = card::Violation;
    type Property = card::Property;
    type PropertyRequest = card::PropertyRequest;
    type ResourceType = card::ResourceType;
    type ReportType = card::ReportType<AddressbookReport>;
    type ReportTypeName = card::ReportTypeName;
    type Multistatus = Disabled;
}

/// The CardDAV vocabulary as seen from inside a report: the same
/// properties as `Addressbook`, with reports switched off so that the
/// dialect does not refer to itself.
#[derive(Debug, PartialEq, Clone)]
pub struct AddressbookReport {}

impl Extension for AddressbookReport {
    type Error = card::Violation;
    type Property = card::Property;
    type PropertyRequest = card::PropertyRequest;
    type ResourceType = card::ResourceType;
    type ReportType = Disabled;
    type ReportTypeName = card::ReportTypeName;
    type Multistatus = Disabled;
}

/// WebDAV with CalDAV (RFC 4791).
#[derive(Debug, PartialEq, Clone)]
pub struct Calendar {}

impl Extension for Calendar {
    type Error = cal::Violation;
    type Property = cal::Property;
    type PropertyRequest = cal::PropertyRequest;
    type ResourceType = cal::ResourceType;
    type ReportType = cal::ReportType<CalendarReport>;
    type ReportTypeName = Disabled;
    type Multistatus = Disabled;
}

/// The CalDAV vocabulary as seen from inside a report: the same
/// properties as `Calendar`, with reports switched off so that the dialect
/// does not refer to itself.
#[derive(Debug, PartialEq, Clone)]
pub struct CalendarReport {}

impl Extension for CalendarReport {
    type Error = cal::Violation;
    type Property = cal::Property;
    type PropertyRequest = cal::PropertyRequest;
    type ResourceType = cal::ResourceType;
    type ReportType = Disabled;
    type ReportTypeName = Disabled;
    type Multistatus = Disabled;
}

/// WebDAV with the ACL properties.
#[derive(Debug, PartialEq, Clone)]
pub struct Acl {}

impl Extension for Acl {
    type Error = Disabled;
    type Property = acl::Property;
    type PropertyRequest = acl::PropertyRequest;
    type ResourceType = acl::ResourceType;
    type ReportType = Disabled;
    type ReportTypeName = Disabled;
    type Multistatus = Disabled;
}

/// Every extension merged.
#[derive(Debug, PartialEq, Clone)]
pub struct All {}

impl Extension for All {
    type Error = cal::Violation;
    type Property = Property<AllInner>;
    type PropertyRequest = PropertyRequest;
    type ResourceType = ResourceType;
    type ReportType = ReportType<AllInner>;
    type ReportTypeName = ReportTypeName;
    type Multistatus = Disabled;
}

/// The merged vocabulary as seen from inside a property or a report:
/// the names of `All`, with nested values and reports switched off so
/// that the dialect does not refer to itself.
#[derive(Debug, PartialEq, Clone)]
pub struct AllInner {}

impl Extension for AllInner {
    type Error = cal::Violation;
    type Property = Disabled;
    type PropertyRequest = PropertyRequest;
    type ResourceType = ResourceType;
    type ReportType = Disabled;
    type ReportTypeName = ReportTypeName;
    type Multistatus = Disabled;
}

/// A property of any merged extension.
#[derive(Debug, PartialEq, Clone)]
pub enum Property<E: Extension> {
    Cal(cal::Property),
    Card(card::Property),
    Acl(acl::Property),
    Vers(vers::Property<E>),
}

/// A property name of any merged extension.
#[derive(Debug, PartialEq, Clone)]
pub enum PropertyRequest {
    Cal(cal::PropertyRequest),
    Card(card::PropertyRequest),
    Acl(acl::PropertyRequest),
    Vers(vers::PropertyRequest),
}

/// A resource type of any merged extension.
#[derive(Debug, PartialEq, Clone)]
pub enum ResourceType {
    Cal(cal::ResourceType),
    Card(card::ResourceType),
    Acl(acl::ResourceType),
}

/// A report of any merged extension.
#[derive(Debug, PartialEq, Clone)]
pub enum ReportType<E: Extension> {
    Cal(cal::ReportType<E>),
    Card(card::ReportType<E>),
    Sync(sync::SyncCollection<E>),
}

/// A report name of any merged extension.
#[derive(Debug, PartialEq, Clone)]
pub enum ReportTypeName {
    Card(card::ReportTypeName),
}

/// A property name of any merged extension, by its view.
pub enum PropertyRequestView {
    Cal(cal::PropertyRequestView),
    Card(card::PropertyRequestView),
    Acl(acl::PropertyRequest),
    Vers(vers::PropertyRequest),
}

impl View for PropertyRequest {
    type V = PropertyRequestView;

    open spec fn view(&self) -> PropertyRequestView {
        match self {
            PropertyRequest::Cal(c) => PropertyRequestView::Cal(c@),
            PropertyRequest::Card(c) => PropertyRequestView::Card(c@),
            PropertyRequest::Acl(a) => PropertyRequestView::Acl(a@),
            PropertyRequest::Vers(v) => PropertyRequestView::Vers(v@),
        }
    }
}

impl QRead for PropertyRequest {
    /// The first of the CalDAV, CardDAV, ACL and versioning names that
    /// reads, each tried where the previous attempt left the cursor.
    open spec fn qread_spec(evs: Seq<XmlEvent>, st: RState) -> (Result<PropertyRequestView, ParsingError>, RState) {
        match <cal::PropertyRequest as QRead>::qread_spec(evs, st) {
            (Ok(c), s) => (Ok(PropertyRequestView::Cal(c)), s),
            (Err(ParsingError::Recoverable), s0) => match <card::PropertyRequest as QRead>::qread_spec(evs, s0) {
                (Ok(c), s) => (Ok(PropertyRequestView::Card(c)), s),
                (Err(ParsingError::Recoverable), s1) => match <acl::PropertyRequest as QRead>::qread_spec(evs, s1) {
                    (Ok(a), s) => (Ok(PropertyRequestView::Acl(a)), s),
                    (Err(ParsingError::Recoverable), s2) => match <vers::PropertyRequest as QRead>::qread_spec(
                        evs,
                        s2,
                    ) {
                        (Ok(v), s) => (Ok(PropertyRequestView::Vers(v)), s),
                        (Err(e), s) => (Err(e), s),
                    },
                    (Err(e), s) => (Err(e), s),
                },
                (Err(e), s) => (Err(e), s),
            },
            (Err(e), s) => (Err(e), s),
        }
    }

    fn qread(xml: &mut Reader) -> (r: Result<Self, ParsingError>) {
        match cal::PropertyRequest::qread(xml) {
            Ok(c) => return Ok(PropertyRequest::Cal(c)),
            Err(ParsingError::Recoverable) => {},
            Err(e) => return Err(e),
        }
        match card::PropertyRequest::qread(xml) {
            Ok(c) => return Ok(PropertyRequest::Card(c)),
            Err(ParsingError::Recoverable) => {},
            Err(e) => return Err(e),
        }
        match acl::PropertyRequest::qread(xml) {
            Ok(a) => return Ok(PropertyRequest::Acl(a)),
            Err(ParsingError::Recoverable) => {},
            Err(e) => return Err(e),
        }
        match vers::PropertyRequest::qread(xml) {
            Ok(v) => Ok(PropertyRequest::Vers(v)),
            Err(e) => Err(e),
        }
    }
}

/// A resource type of any merged extension, by its view.
pub enum ResourceTypeView {
    Cal(cal::ResourceType),
    Card(card::ResourceType),
    Acl(acl::ResourceType),
}

impl View for ResourceType {
    type V = ResourceTypeView;

    open spec fn view(&self) -> ResourceTypeView {
        match self {
            ResourceType::Cal(c) => ResourceTypeView::Cal(c@),
            ResourceType::Card(c) => ResourceTypeView::Card(c@),
            ResourceType::Acl(a) => ResourceTypeView::Acl(a@),
        }
    }
}

impl QRead for ResourceType {
    /// The CalDAV type if it reads, else the CardDAV type, else the ACL
    /// type.
    open spec fn qread_spec(evs: Seq<XmlEvent>, st: RState) -> (Result<ResourceTypeView, ParsingError>, RState) {
        match <cal::ResourceType as QRead>::qread_spec(evs, st) {
            (Ok(c), s) => (Ok(ResourceTypeView::Cal(c)), s),
            (Err(ParsingError::Recoverable), s0) => match <card::ResourceType as QRead>::qread_spec(evs, s0) {
                (Ok(c), s) => (Ok(ResourceTypeView::Card(c)), s),
                (Err(ParsingError::Recoverable), s1) => match <acl::ResourceType as QRead>::qread_spec(evs, s1) {
                    (Ok(a), s) => (Ok(ResourceTypeView::Acl(a)), s),
                    (Err(e), s) => (Err(e), s),
                },
                (Err(e), s) => (Err(e), s),
            },
            (Err(e), s) => (Err(e), s),
        }
    }

    fn qread(xml: &mut Reader) -> (r: Result<Self, ParsingError>) {
        match cal::ResourceType::qread(xml) {
            Ok(c) => return Ok(ResourceType::Cal(c)),
            Err(ParsingError::Recoverable) => {},
            Err(e) => return Err(e),
        }
        match card::ResourceType::qread(xml) {
            Ok(c) => return Ok(ResourceType::Card(c)),
            Err(ParsingError::Recoverable) => {},
            Err(e) => return Err(e),
        }
        match acl::ResourceType::qread(xml) {
            Ok(a) => Ok(ResourceType::Acl(a)),
            Err(e) => Err(e),
        }
    }
}

impl View for ReportTypeName {
    type V = card::ReportTypeName;

    open spec fn view(&self) -> card::ReportTypeName {
        match self {
            ReportTypeName::Card(c) => c@,
        }
    }
}

impl QRead for ReportTypeName {
    /// A CardDAV report name.
    open spec fn qread_spec(evs: Seq<XmlEvent>, st: RState) -> (Result<card::ReportTypeName, ParsingError>, RState) {
        <card::ReportTypeName as QRead>::qread_spec(evs, st)
    }

    fn qread(xml: &mut Reader) -> (r: Result<Self, ParsingError>) {
        match card::ReportTypeName::qread(xml) {
            Ok(c) => Ok(ReportTypeName::Card(c)),
            Err(e) => Err(e),
        }
    }
}

/// A property value of any merged extension, by its view.
pub enum PropertyView<R> {
    Cal(cal::PropertyView),
    Card(card::PropertyView),
    Acl(acl::PropertyView),
    Vers(VersPropertyView<R>),
}

impl<E: Extension> View for Property<E> where E::ReportTypeName: View {
    type V = PropertyView<<E::ReportTypeName as View>::V>;

    open spec fn view(&self) -> Self::V {
        match self {
            Property::Cal(c) => PropertyView::Cal(c@),
            Property::Card(c) => PropertyView::Card(c@),
            Property::Acl(a) => PropertyView::Acl(a@),
            Property::Vers(v) => PropertyView::Vers(v@),
        }
    }
}

impl<E: Extension> QRead for Property<E> where E::ReportTypeName: QRead {
    /// The first of the CalDAV, CardDAV, ACL and versioning values that
    /// reads, each tried where the previous attempt left the cursor.
    open spec fn qread_spec(evs: Seq<XmlEvent>, st: RState) -> (Result<Self::V, ParsingError>, RState) {
        match <cal::Property as QRead>::qread_spec(evs, st) {
            (Ok(c), s) => (Ok(PropertyView::Cal(c)), s),
            (Err(ParsingError::Recoverable), s0) => match <card::Property as QRead>::qread_spec(evs, s0) {
                (Ok(c), s) => (Ok(PropertyView::Card(c)), s),
                (Err(ParsingError::Recoverable), s1) => match <acl::Property as QRead>::qread_spec(evs, s1) {
                    (Ok(a), s) => (Ok(PropertyView::Acl(a)), s),
                    (Err(ParsingError::Recoverable), s2) => match <vers::Property<E> as QRead>::qread_spec(evs, s2) {
                        (Ok(v), s) => (Ok(PropertyView::Vers(v)), s),
                        (Err(e), s) => (Err(e), s),
                    },
                    (Err(e), s) => (Err(e), s),
                },
                (Err(e), s) => (Err(e), s),
            },
            (Err(e), s) => (Err(e), s),
        }
    }

    fn qread(xml: &mut Reader) -> (r: Result<Self, ParsingError>) {
        match cal::Property::qread(xml) {
            Ok(c) => return Ok(Property::Cal(c)),
            Err(ParsingError::Recoverable) => {},
            Err(e) => return Err(e),
        }
        match card::Property::qread(xml) {
            Ok(c) => return Ok(Property::Card(c)),
            Err(ParsingError::Recoverable) => {},
            Err(e) => return Err(e),
        }
        match acl::Property::qread(xml) {
            Ok(a) => return Ok(Property::Acl(a)),
            Err(ParsingError::Recoverable) => {},
            Err(e) => return Err(e),
        }
        match vers::Property::<E>::qread(xml) {
            Ok(v) => Ok(Property::Vers(v)),
            Err(e) => Err(e),
        }
    }
}


} // verus!
