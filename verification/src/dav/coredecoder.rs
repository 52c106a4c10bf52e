//! Reading the core WebDAV bodies (RFC 4918) whose vocabulary an
//! extension widens: property names and values, PROPFIND and PROPPATCH
//! requests, error bodies and multistatus responses.
use vstd::prelude::*;

use super::error::ParsingError;
use super::types::{
    ActiveLock, ActiveLockView, AnyProp, AnyProperty, DateTimeOffset, Error, Extension, Href, Include, LockEntry, PropFind, PropName,
    Location, Multistatus, PropSet, PropStat, PropValue, Property, PropertyRequest, Response, ResponseDescription,
    Status, StatusOrPropstat, PropertyUpdate, PropertyUpdateItem, Remove, ResourceType,
    Violation,
};
use crate::text::{parse_u64, u64_of};
use super::xml::{
    atoms_spec, close_spec, collect_spec, find_spec, maybe_push_spec, keys_view, lemma_skip, maybe_find_spec, maybe_read_spec, open_spec,
    is_tag_spec, open_start_spec, opt_view, res_view, skip_spec, tag_string_spec, views, QRead, RState, Reader, XmlEvent, DAV_URN,
};

verus! {

/// A property name by its view; an extension's name by the extension's
/// own view.
pub enum PropertyRequestView<X> {
    CreationDate,
    DisplayName,
    GetContentLanguage,
    GetContentLength,
    GetContentType,
    GetEtag,
    GetLastModified,
    LockDiscovery,
    ResourceType,
    SupportedLock,
    Extension(X),
}

impl<E: Extension> View for PropertyRequest<E> where E::PropertyRequest: View {
    type V = PropertyRequestView<<E::PropertyRequest as View>::V>;

    open spec fn view(&self) -> Self::V {
        match self {
            PropertyRequest::CreationDate => PropertyRequestView::CreationDate,
            PropertyRequest::DisplayName => PropertyRequestView::DisplayName,
            PropertyRequest::GetContentLanguage => PropertyRequestView::GetContentLanguage,
            PropertyRequest::GetContentLength => PropertyRequestView::GetContentLength,
            PropertyRequest::GetContentType => PropertyRequestView::GetContentType,
            PropertyRequest::GetEtag => PropertyRequestView::GetEtag,
            PropertyRequest::GetLastModified => PropertyRequestView::GetLastModified,
            PropertyRequest::LockDiscovery => PropertyRequestView::LockDiscovery,
            PropertyRequest::ResourceType => PropertyRequestView::ResourceType,
            PropertyRequest::SupportedLock => PropertyRequestView::SupportedLock,
            PropertyRequest::Extension(x) => PropertyRequestView::Extension(x@),
        }
    }
}

/// The names of the core properties, in the order they are tried.
pub open spec fn core_property_names() -> Seq<Seq<char>> {
    seq![
        "creationdate"@,
        "displayname"@,
        "getcontentlanguage"@,
        "getcontentlength"@,
        "getcontenttype"@,
        "getetag"@,
        "getlastmodified"@,
        "lockdiscovery"@,
        "resourcetype"@,
        "supportedlock"@,
    ]
}

/// The core property name at a position of `core_property_names`.
pub open spec fn core_property_at<X>(i: int) -> PropertyRequestView<X> {
    if i == 0 {
        PropertyRequestView::CreationDate
    } else if i == 1 {
        PropertyRequestView::DisplayName
    } else if i == 2 {
        PropertyRequestView::GetContentLanguage
    } else if i == 3 {
        PropertyRequestView::GetContentLength
    } else if i == 4 {
        PropertyRequestView::GetContentType
    } else if i == 5 {
        PropertyRequestView::GetEtag
    } else if i == 6 {
        PropertyRequestView::GetLastModified
    } else if i == 7 {
        PropertyRequestView::LockDiscovery
    } else if i == 8 {
        PropertyRequestView::ResourceType
    } else {
        PropertyRequestView::SupportedLock
    }
}

/// A property name: the first core name that is the current element,
/// else the extension's name.
pub open spec fn property_request_spec<X: QRead>(evs: Seq<XmlEvent>, st: RState) -> (
    Result<PropertyRequestView<X::V>, ParsingError>,
    RState,
) {
    match atoms_spec(evs, st, DAV_URN@, core_property_names(), 0) {
        (Ok(i), s) => (Ok(core_property_at(i)), s),
        (Err(ParsingError::Recoverable), s) => match X::qread_spec(evs, s) {
            (Ok(x), s2) => (Ok(PropertyRequestView::Extension(x)), s2),
            (Err(e), s2) => (Err(e), s2),
        },
        (Err(e), s) => (Err(e), s),
    }
}

impl<E: Extension> QRead for PropertyRequest<E> where E::PropertyRequest: QRead {
    open spec fn qread_spec(evs: Seq<XmlEvent>, st: RState) -> (Result<Self::V, ParsingError>, RState) {
        property_request_spec::<E::PropertyRequest>(evs, st)
    }

    fn qread(xml: &mut Reader) -> (r: Result<Self, ParsingError>) {
        let keys: Vec<&str> = vec![
            "creationdate",
            "displayname",
            "getcontentlanguage",
            "getcontentlength",
            "getcontenttype",
            "getetag",
            "getlastmodified",
            "lockdiscovery",
            "resourcetype",
            "supportedlock",
        ];
        assert(keys_view(keys@) =~= core_property_names());
        match xml.read_atom(DAV_URN, &keys) {
            Ok(i) => Ok(
                if i == 0 {
                    PropertyRequest::CreationDate
                } else if i == 1 {
                    PropertyRequest::DisplayName
                } else if i == 2 {
                    PropertyRequest::GetContentLanguage
                } else if i == 3 {
                    PropertyRequest::GetContentLength
                } else if i == 4 {
                    PropertyRequest::GetContentType
                } else if i == 5 {
                    PropertyRequest::GetEtag
                } else if i == 6 {
                    PropertyRequest::GetLastModified
                } else if i == 7 {
                    PropertyRequest::LockDiscovery
                } else if i == 8 {
                    PropertyRequest::ResourceType
                } else {
                    PropertyRequest::SupportedLock
                },
            ),
            Err(ParsingError::Recoverable) => match E::PropertyRequest::qread(xml) {
                Ok(x) => Ok(PropertyRequest::Extension(x)),
                Err(e) => Err(e),
            },
            Err(e) => Err(e),
        }
    }
}

impl<E: Extension> View for PropName<E> where E::PropertyRequest: View {
    type V = Seq<PropertyRequestView<<E::PropertyRequest as View>::V>>;

    open spec fn view(&self) -> Self::V {
        views(self.0@)
    }
}

impl<E: Extension> View for Include<E> where E::PropertyRequest: View {
    type V = Seq<PropertyRequestView<<E::PropertyRequest as View>::V>>;

    open spec fn view(&self) -> Self::V {
        views(self.0@)
    }
}

/// The element `D:key` and the property names among its children.
pub open spec fn names_in_spec<E: Extension>(evs: Seq<XmlEvent>, st: RState, key: Seq<char>) -> (
    Result<Seq<PropertyRequestView<<E::PropertyRequest as View>::V>>, ParsingError>,
    RState,
) where E::PropertyRequest: QRead {
    match open_spec(evs, st, DAV_URN@, key) {
        (Err(e), s) => (Err(e), s),
        (Ok(_), s1) => match collect_spec::<PropertyRequest<E>>(evs, s1) {
            (Err(e), s) => (Err(e), s),
            (Ok(v), s2) => match close_spec(evs, s2) {
                (Err(e), s) => (Err(e), s),
                (Ok(_), s3) => (Ok(v), s3),
            },
        },
    }
}

/// Reads the element `D:key` and the property names among its children.
fn read_names_in<E: Extension>(xml: &mut Reader, key: &str) -> (r: Result<Vec<PropertyRequest<E>>, ParsingError>)
    where E::PropertyRequest: QRead
    requires
        old(xml).wf(),
    ensures
        final(xml).wf(),
        final(xml).evs() == old(xml).evs(),
        match r {
            Ok(v) => names_in_spec::<E>(old(xml).evs(), old(xml).st(), key@).0 == Ok::<_, ParsingError>(views(v@)),
            Err(e) => names_in_spec::<E>(old(xml).evs(), old(xml).st(), key@).0 == Err::<Seq<PropertyRequestView<<E::PropertyRequest as View>::V>>, ParsingError>(e),
        },
        final(xml).st() == names_in_spec::<E>(old(xml).evs(), old(xml).st(), key@).1,
        final(xml).st().pos >= old(xml).st().pos,
        r is Ok ==> final(xml).st().pos > old(xml).st().pos,
{
    xml.open(DAV_URN, key)?;
    let acc = xml.collect::<PropertyRequest<E>>()?;
    xml.close()?;
    Ok(acc)
}

impl<E: Extension> QRead for PropName<E> where E::PropertyRequest: QRead {
    open spec fn qread_spec(evs: Seq<XmlEvent>, st: RState) -> (Result<Self::V, ParsingError>, RState) {
        names_in_spec::<E>(evs, st, "prop"@)
    }

    fn qread(xml: &mut Reader) -> (r: Result<Self, ParsingError>) {
        let acc = read_names_in::<E>(xml, "prop")?;
        Ok(PropName(acc))
    }
}

impl<E: Extension> QRead for Include<E> where E::PropertyRequest: QRead {
    open spec fn qread_spec(evs: Seq<XmlEvent>, st: RState) -> (Result<Self::V, ParsingError>, RState) {
        names_in_spec::<E>(evs, st, "include"@)
    }

    fn qread(xml: &mut Reader) -> (r: Result<Self, ParsingError>) {
        let acc = read_names_in::<E>(xml, "include")?;
        Ok(Include(acc))
    }
}

/// A PROPFIND request by its view.
pub enum PropFindView<X> {
    PropName,
    AllProp(Option<Seq<PropertyRequestView<X>>>),
    Prop(Seq<PropertyRequestView<X>>),
}

impl<E: Extension> View for PropFind<E> where E::PropertyRequest: View {
    type V = PropFindView<<E::PropertyRequest as View>::V>;

    open spec fn view(&self) -> Self::V {
        match self {
            PropFind::PropName => PropFindView::PropName,
            PropFind::AllProp(i) => PropFindView::AllProp(opt_view(*i)),
            PropFind::Prop(p) => PropFindView::Prop(p@),
        }
    }
}

/// The body of a PROPFIND from the current event on: `allprop` (with an
/// optional `include` after it), `propname` or `prop`, whichever comes
/// first; other nodes are skipped.
pub open spec fn propfind_loop<E: Extension>(evs: Seq<XmlEvent>, st: RState) -> (
    Result<PropFindView<<E::PropertyRequest as View>::V>, ParsingError>,
    RState,
) where E::PropertyRequest: QRead
    decreases evs.len() - st.pos,
{
    match open_spec(evs, st, DAV_URN@, "allprop"@) {
        (Ok(_), s1) => match close_spec(evs, s1) {
            (Err(e), s) => (Err(e), s),
            (Ok(_), s2) => match maybe_find_spec::<Include<E>>(evs, s2) {
                (Err(e), s) => (Err(e), s),
                (Ok(i), s3) => (Ok(PropFindView::AllProp(i)), s3),
            },
        },
        (Err(ParsingError::Recoverable), _) => match open_spec(evs, st, DAV_URN@, "propname"@) {
            (Ok(_), s1) => match close_spec(evs, s1) {
                (Err(e), s) => (Err(e), s),
                (Ok(_), s2) => (Ok(PropFindView::PropName), s2),
            },
            (Err(ParsingError::Recoverable), _) => match maybe_read_spec::<PropName<E>>(evs, st, None, false) {
                (Err(e), s, _, _) => (Err(e), s),
                (Ok(_), s1, Some(p), _) => (Ok(PropFindView::Prop(p)), s1),
                (Ok(_), s1, None, _) => match skip_spec(evs, s1) {
                    (Err(e), s) => (Err(e), s),
                    (Ok(_), s2) => if st.pos < s2.pos <= evs.len() {
                        propfind_loop::<E>(evs, s2)
                    } else {
                        (Err(ParsingError::Eof), s2)
                    },
                },
            },
            (Err(e), s) => (Err(e), s),
        },
        (Err(e), s) => (Err(e), s),
    }
}

/// `<D:propfind>`: its body, then the element closed.
pub open spec fn propfind_spec<E: Extension>(evs: Seq<XmlEvent>, st: RState) -> (
    Result<PropFindView<<E::PropertyRequest as View>::V>, ParsingError>,
    RState,
) where E::PropertyRequest: QRead {
    match open_spec(evs, st, DAV_URN@, "propfind"@) {
        (Err(e), s) => (Err(e), s),
        (Ok(_), s1) => match propfind_loop::<E>(evs, s1) {
            (Err(e), s) => (Err(e), s),
            (Ok(p), s2) => match close_spec(evs, s2) {
                (Err(e), s) => (Err(e), s),
                (Ok(_), s3) => (Ok(p), s3),
            },
        },
    }
}

/// Reads the body of a PROPFIND; see `propfind_loop`.
fn read_propfind_body<E: Extension>(xml: &mut Reader) -> (r: Result<PropFind<E>, ParsingError>)
    where E::PropertyRequest: QRead
    requires
        old(xml).wf(),
    ensures
        final(xml).wf(),
        final(xml).evs() == old(xml).evs(),
        res_view(r) == propfind_loop::<E>(old(xml).evs(), old(xml).st()).0,
        final(xml).st() == propfind_loop::<E>(old(xml).evs(), old(xml).st()).1,
        final(xml).st().pos >= old(xml).st().pos,
{
    let ghost evs = xml.evs();
    let ghost st0 = xml.st();
    loop
        invariant
            xml.wf(),
            xml.evs() == evs,
            evs == old(xml).evs(),
            st0 == old(xml).st(),
            xml.st().pos >= st0.pos,
            propfind_loop::<E>(evs, xml.st()) == propfind_loop::<E>(evs, st0),
        decreases evs.len() - xml.st().pos,
    {
        let ghost here = xml.st();
        if xml.maybe_open(DAV_URN, "allprop")? {
            xml.close()?;
            let includ = xml.maybe_find::<Include<E>>()?;
            return Ok(PropFind::AllProp(includ));
        }
        if xml.maybe_open(DAV_URN, "propname")? {
            xml.close()?;
            return Ok(PropFind::PropName);
        }
        let mut maybe_prop: Option<PropName<E>> = None;
        let mut dirty = false;
        xml.maybe_read::<PropName<E>>(&mut maybe_prop, &mut dirty)?;
        if let Some(prop) = maybe_prop {
            return Ok(PropFind::Prop(prop));
        }
        proof {
            lemma_skip(evs, xml.st());
        }
        xml.skip()?;
        assert(here.pos < xml.st().pos);
    }
}

impl<E: Extension> QRead for PropFind<E> where E::PropertyRequest: QRead {
    open spec fn qread_spec(evs: Seq<XmlEvent>, st: RState) -> (Result<Self::V, ParsingError>, RState) {
        propfind_spec::<E>(evs, st)
    }

    fn qread(xml: &mut Reader) -> (r: Result<Self, ParsingError>) {
        xml.open(DAV_URN, "propfind")?;
        let propfind = read_propfind_body::<E>(xml)?;
        xml.close()?;
        Ok(propfind)
    }
}

/// A condition code by its view; an extension's code by the extension's
/// own view.
pub enum ViolationView<X> {
    LockTokenMatchesRequestUri,
    LockTokenSubmitted(Seq<Seq<char>>),
    NoConflictingLock(Seq<Seq<char>>),
    NoExternalEntities,
    PreservedLiveProperties,
    PropfindFiniteDepth,
    CannotModifyProtectedProperty,
    Extension(X),
}

impl<E: Extension> View for Violation<E> where E::Error: View {
    type V = ViolationView<<E::Error as View>::V>;

    open spec fn view(&self) -> Self::V {
        match self {
            Violation::LockTokenMatchesRequestUri => ViolationView::LockTokenMatchesRequestUri,
            Violation::LockTokenSubmitted(v) => ViolationView::LockTokenSubmitted(views(v@)),
            Violation::NoConflictingLock(v) => ViolationView::NoConflictingLock(views(v@)),
            Violation::NoExternalEntities => ViolationView::NoExternalEntities,
            Violation::PreservedLiveProperties => ViolationView::PreservedLiveProperties,
            Violation::PropfindFiniteDepth => ViolationView::PropfindFiniteDepth,
            Violation::CannotModifyProtectedProperty => ViolationView::CannotModifyProtectedProperty,
            Violation::Extension(x) => ViolationView::Extension(x@),
        }
    }
}

impl<E: Extension> View for Error<E> where E::Error: View {
    type V = Seq<ViolationView<<E::Error as View>::V>>;

    open spec fn view(&self) -> Self::V {
        views(self.0@)
    }
}

/// After an element is opened: all the values of type `N` among its
/// children, then the element closed.
pub open spec fn collect_close_spec<N: QRead>(evs: Seq<XmlEvent>, st: RState) -> (Result<Seq<N::V>, ParsingError>, RState) {
    match collect_spec::<N>(evs, st) {
        (Err(e), s) => (Err(e), s),
        (Ok(v), s2) => match close_spec(evs, s2) {
            (Err(e), s) => (Err(e), s),
            (Ok(_), s3) => (Ok(v), s3),
        },
    }
}

/// Reads all the values of type `N` among the children of the element
/// just opened, then closes it.
pub(crate) fn collect_close<N: QRead>(xml: &mut Reader) -> (r: Result<Vec<N>, ParsingError>)
    requires
        old(xml).wf(),
    ensures
        final(xml).wf(),
        final(xml).evs() == old(xml).evs(),
        match r {
            Ok(v) => collect_close_spec::<N>(old(xml).evs(), old(xml).st()).0 == Ok::<Seq<N::V>, ParsingError>(views(v@)),
            Err(e) => collect_close_spec::<N>(old(xml).evs(), old(xml).st()).0 == Err::<Seq<N::V>, ParsingError>(e),
        },
        final(xml).st() == collect_close_spec::<N>(old(xml).evs(), old(xml).st()).1,
        final(xml).st().pos >= old(xml).st().pos,
{
    let acc = xml.collect::<N>()?;
    xml.close()?;
    Ok(acc)
}

/// The condition codes without content, after the ones with references.
pub open spec fn plain_violation_names() -> Seq<Seq<char>> {
    seq![
        "no-external-entities"@,
        "preserved-live-properties"@,
        "propfind-finite-depth"@,
        "cannot-modify-protected-property"@,
    ]
}

/// The condition code at a position of `plain_violation_names`.
pub open spec fn plain_violation_at<X>(i: int) -> ViolationView<X> {
    if i == 0 {
        ViolationView::NoExternalEntities
    } else if i == 1 {
        ViolationView::PreservedLiveProperties
    } else if i == 2 {
        ViolationView::PropfindFiniteDepth
    } else {
        ViolationView::CannotModifyProtectedProperty
    }
}

/// A condition code: `lock-token-matches-request-uri`, the two codes that
/// hold references, the codes without content, in this order, else the
/// extension's code.
pub open spec fn violation_spec<X: QRead>(evs: Seq<XmlEvent>, st: RState) -> (
    Result<ViolationView<X::V>, ParsingError>,
    RState,
) {
    match open_spec(evs, st, DAV_URN@, "lock-token-matches-request-uri"@) {
        (Ok(_), s1) => match close_spec(evs, s1) {
            (Ok(_), s) => (Ok(ViolationView::LockTokenMatchesRequestUri), s),
            (Err(e), s) => (Err(e), s),
        },
        (Err(ParsingError::Recoverable), _) => match open_spec(evs, st, DAV_URN@, "lock-token-submitted"@) {
            (Ok(_), s1) => match collect_close_spec::<Href>(evs, s1) {
                (Ok(v), s) => (Ok(ViolationView::LockTokenSubmitted(v)), s),
                (Err(e), s) => (Err(e), s),
            },
            (Err(ParsingError::Recoverable), _) => match open_spec(evs, st, DAV_URN@, "no-conflicting-lock"@) {
                (Ok(_), s1) => match collect_close_spec::<Href>(evs, s1) {
                    (Ok(v), s) => (Ok(ViolationView::NoConflictingLock(v)), s),
                    (Err(e), s) => (Err(e), s),
                },
                (Err(ParsingError::Recoverable), _) => match atoms_spec(evs, st, DAV_URN@, plain_violation_names(), 0) {
                    (Ok(i), s) => (Ok(plain_violation_at(i)), s),
                    (Err(ParsingError::Recoverable), s) => match X::qread_spec(evs, s) {
                        (Ok(x), s2) => (Ok(ViolationView::Extension(x)), s2),
                        (Err(e), s2) => (Err(e), s2),
                    },
                    (Err(e), s) => (Err(e), s),
                },
                (Err(e), s) => (Err(e), s),
            },
            (Err(e), s) => (Err(e), s),
        },
        (Err(e), s) => (Err(e), s),
    }
}

impl<E: Extension> QRead for Violation<E> where E::Error: QRead {
    open spec fn qread_spec(evs: Seq<XmlEvent>, st: RState) -> (Result<Self::V, ParsingError>, RState) {
        violation_spec::<E::Error>(evs, st)
    }

    fn qread(xml: &mut Reader) -> (r: Result<Self, ParsingError>) {
        if xml.maybe_open(DAV_URN, "lock-token-matches-request-uri")? {
            xml.close()?;
            return Ok(Violation::LockTokenMatchesRequestUri);
        }
        if xml.maybe_open(DAV_URN, "lock-token-submitted")? {
            let links = collect_close::<Href>(xml)?;
            return Ok(Violation::LockTokenSubmitted(links));
        }
        if xml.maybe_open(DAV_URN, "no-conflicting-lock")? {
            let links = collect_close::<Href>(xml)?;
            return Ok(Violation::NoConflictingLock(links));
        }
        let plain: Vec<&str> = vec![
            "no-external-entities",
            "preserved-live-properties",
            "propfind-finite-depth",
            "cannot-modify-protected-property",
        ];
        assert(keys_view(plain@) =~= plain_violation_names());
        match xml.read_atom(DAV_URN, &plain) {
            Ok(i) => Ok(
                if i == 0 {
                    Violation::NoExternalEntities
                } else if i == 1 {
                    Violation::PreservedLiveProperties
                } else if i == 2 {
                    Violation::PropfindFiniteDepth
                } else {
                    Violation::CannotModifyProtectedProperty
                },
            ),
            Err(ParsingError::Recoverable) => match E::Error::qread(xml) {
                Ok(x) => Ok(Violation::Extension(x)),
                Err(e) => Err(e),
            },
            Err(e) => Err(e),
        }
    }
}

/// `<D:error>`: the condition codes it holds.
pub open spec fn error_spec<E: Extension>(evs: Seq<XmlEvent>, st: RState) -> (
    Result<Seq<ViolationView<<E::Error as View>::V>>, ParsingError>,
    RState,
) where E::Error: QRead {
    match open_spec(evs, st, DAV_URN@, "error"@) {
        (Err(e), s) => (Err(e), s),
        (Ok(_), s1) => collect_close_spec::<Violation<E>>(evs, s1),
    }
}

impl<E: Extension> QRead for Error<E> where E::Error: QRead {
    open spec fn qread_spec(evs: Seq<XmlEvent>, st: RState) -> (Result<Self::V, ParsingError>, RState) {
        error_spec::<E>(evs, st)
    }

    fn qread(xml: &mut Reader) -> (r: Result<Self, ParsingError>) {
        xml.open(DAV_URN, "error")?;
        let violations = collect_close::<Violation<E>>(xml)?;
        Ok(Error(violations))
    }
}

/// A resource type by its view; an extension's type by the extension's
/// own view.
pub enum ResourceTypeView<R> {
    Collection,
    Extension(R),
}

impl<E: Extension> View for ResourceType<E> where E::ResourceType: View {
    type V = ResourceTypeView<<E::ResourceType as View>::V>;

    open spec fn view(&self) -> Self::V {
        match self {
            ResourceType::Collection => ResourceTypeView::Collection,
            ResourceType::Extension(x) => ResourceTypeView::Extension(x@),
        }
    }
}

/// A resource type: `<D:collection/>`, else the extension's type.
pub open spec fn resource_type_spec<R: QRead>(evs: Seq<XmlEvent>, st: RState) -> (
    Result<ResourceTypeView<R::V>, ParsingError>,
    RState,
) {
    match open_spec(evs, st, DAV_URN@, "collection"@) {
        (Ok(_), s1) => match close_spec(evs, s1) {
            (Ok(_), s) => (Ok(ResourceTypeView::Collection), s),
            (Err(e), s) => (Err(e), s),
        },
        (Err(ParsingError::Recoverable), _) => match R::qread_spec(evs, st) {
            (Ok(x), s) => (Ok(ResourceTypeView::Extension(x)), s),
            (Err(e), s) => (Err(e), s),
        },
        (Err(e), s) => (Err(e), s),
    }
}

impl<E: Extension> QRead for ResourceType<E> where E::ResourceType: QRead {
    open spec fn qread_spec(evs: Seq<XmlEvent>, st: RState) -> (Result<Self::V, ParsingError>, RState) {
        resource_type_spec::<E::ResourceType>(evs, st)
    }

    fn qread(xml: &mut Reader) -> (r: Result<Self, ParsingError>) {
        if xml.maybe_open(DAV_URN, "collection")? {
            xml.close()?;
            return Ok(ResourceType::Collection);
        }
        match E::ResourceType::qread(xml) {
            Ok(x) => Ok(ResourceType::Extension(x)),
            Err(e) => Err(e),
        }
    }
}

/// The date-time `chrono` reads from an RFC 3339 text
/// (`DateTime::parse_from_rfc3339`), if the text is one.
pub uninterp spec fn rfc3339_parse(s: Seq<char>) -> Option<DateTimeOffset>;

/// The date-time `chrono` reads from an RFC 2822 text
/// (`DateTime::parse_from_rfc2822`), if the text is one.
pub uninterp spec fn rfc2822_parse(s: Seq<char>) -> Option<DateTimeOffset>;

/// `chrono::DateTime::parse_from_rfc3339`, given as seconds and
/// nanoseconds since the UNIX epoch and the offset from UTC in seconds;
/// nothing when the text does not read. The result is named, not
/// described.
#[verifier::external_body]
fn parse_rfc3339(s: &str) -> (r: Option<DateTimeOffset>)
    ensures
        r == rfc3339_parse(s@),
{
    match chrono::DateTime::parse_from_rfc3339(s) {
        Ok(d) => Some(DateTimeOffset {
            unix_secs: d.timestamp(),
            nanos: d.timestamp_subsec_nanos(),
            offset_secs: d.offset().local_minus_utc(),
        }),
        Err(_) => None,
    }
}

/// `chrono::DateTime::parse_from_rfc2822`, given as in `parse_rfc3339`.
/// The result is named, not described.
#[verifier::external_body]
fn parse_rfc2822(s: &str) -> (r: Option<DateTimeOffset>)
    ensures
        r == rfc2822_parse(s@),
{
    match chrono::DateTime::parse_from_rfc2822(s) {
        Ok(d) => Some(DateTimeOffset {
            unix_secs: d.timestamp(),
            nanos: d.timestamp_subsec_nanos(),
            offset_secs: d.offset().local_minus_utc(),
        }),
        Err(_) => None,
    }
}

/// A property value by its view; an extension's value and resource types
/// by the extension's own views.
pub enum PropertyValueView<P, R> {
    CreationDate(DateTimeOffset),
    DisplayName(Seq<char>),
    GetContentLanguage(Seq<char>),
    GetContentLength(u64),
    GetContentType(Seq<char>),
    GetEtag(Seq<char>),
    GetLastModified(DateTimeOffset),
    LockDiscovery(Seq<ActiveLockView>),
    ResourceType(Seq<ResourceTypeView<R>>),
    SupportedLock(Seq<LockEntry>),
    Extension(P),
}

impl<E: Extension> View for Property<E> where E::Property: View, E::ResourceType: View {
    type V = PropertyValueView<<E::Property as View>::V, <E::ResourceType as View>::V>;

    open spec fn view(&self) -> Self::V {
        match self {
            Property::CreationDate(d) => PropertyValueView::CreationDate(*d),
            Property::DisplayName(t) => PropertyValueView::DisplayName(t@),
            Property::GetContentLanguage(t) => PropertyValueView::GetContentLanguage(t@),
            Property::GetContentLength(n) => PropertyValueView::GetContentLength(*n),
            Property::GetContentType(t) => PropertyValueView::GetContentType(t@),
            Property::GetEtag(t) => PropertyValueView::GetEtag(t@),
            Property::GetLastModified(d) => PropertyValueView::GetLastModified(*d),
            Property::LockDiscovery(v) => PropertyValueView::LockDiscovery(views(v@)),
            Property::ResourceType(v) => PropertyValueView::ResourceType(views(v@)),
            Property::SupportedLock(v) => PropertyValueView::SupportedLock(views(v@)),
            Property::Extension(x) => PropertyValueView::Extension(x@),
        }
    }
}

/// Opening the first of the elements `ns:keys[i..]` that is the current
/// one and written with an opening tag: its index, or `Recoverable` when
/// none is.
pub open spec fn open_first_spec(evs: Seq<XmlEvent>, st: RState, ns: Seq<char>, keys: Seq<Seq<char>>, i: int) -> (
    Result<int, ParsingError>,
    RState,
)
    decreases keys.len() - i,
{
    if i < 0 || i >= keys.len() {
        (Err(ParsingError::Recoverable), st)
    } else {
        match open_start_spec(evs, st, ns, keys[i]) {
            (Ok(_), s) => (Ok(i), s),
            (Err(ParsingError::Recoverable), _) => open_first_spec(evs, st, ns, keys, i + 1),
            (Err(e), s) => (Err(e), s),
        }
    }
}

/// Opens the first of the elements `ns:keys[..]` that is the current one
/// and written with an opening tag: its index.
pub(crate) fn open_first(xml: &mut Reader, ns: &str, keys: &Vec<&str>) -> (r: Result<usize, ParsingError>)
    requires
        old(xml).wf(),
    ensures
        final(xml).wf(),
        final(xml).evs() == old(xml).evs(),
        match r {
            Ok(i) => open_first_spec(old(xml).evs(), old(xml).st(), ns@, keys_view(keys@), 0).0 == Ok::<
                int,
                ParsingError,
            >(i as int),
            Err(e) => open_first_spec(old(xml).evs(), old(xml).st(), ns@, keys_view(keys@), 0).0 == Err::<
                int,
                ParsingError,
            >(e),
        },
        final(xml).st() == open_first_spec(old(xml).evs(), old(xml).st(), ns@, keys_view(keys@), 0).1,
        final(xml).st().pos >= old(xml).st().pos,
        r is Ok ==> final(xml).st().pos > old(xml).st().pos,
        r is Ok ==> r->Ok_0 < keys@.len(),
        r matches Err(ParsingError::Recoverable) ==> final(xml).st() == old(xml).st(),
{
    let ghost st0 = xml.st();
    let mut i: usize = 0;
    while i < keys.len()
        invariant
            xml.wf(),
            xml.evs() == old(xml).evs(),
            xml.st() == st0,
            st0 == old(xml).st(),
            i <= keys@.len(),
            open_first_spec(xml.evs(), st0, ns@, keys_view(keys@), i as int) == open_first_spec(
                xml.evs(),
                st0,
                ns@,
                keys_view(keys@),
                0,
            ),
        decreases keys@.len() - i,
    {
        proof {
            assert(keys_view(keys@)[i as int] == keys@[i as int]@);
        }
        if xml.maybe_open_start(ns, keys[i])? {
            return Ok(i);
        }
        i = i + 1;
    }
    Err(ParsingError::Recoverable)
}

/// After a property element is opened: the text it holds, then the element
/// closed.
pub open spec fn text_close_spec(evs: Seq<XmlEvent>, st: RState) -> (Result<Seq<char>, ParsingError>, RState) {
    match tag_string_spec(evs, st) {
        (Err(e), s) => (Err(e), s),
        (Ok(t), s2) => match close_spec(evs, s2) {
            (Err(e), s) => (Err(e), s),
            (Ok(_), s3) => (Ok(t), s3),
        },
    }
}

/// After the `i`-th core property element is opened: its value, then the
/// element closed. A date that does not read fails with `Chrono` once the
/// element is closed; a length that does not read fails with `Int` before.
pub open spec fn core_value_spec<E: Extension>(evs: Seq<XmlEvent>, st: RState, i: int) -> (
    Result<PropertyValueView<<E::Property as View>::V, <E::ResourceType as View>::V>, ParsingError>,
    RState,
) where E::Property: View, E::ResourceType: QRead {
    if i == 0 || i == 6 {
        match text_close_spec(evs, st) {
            (Err(e), s) => (Err(e), s),
            (Ok(t), s) => match (if i == 0 { rfc3339_parse(t) } else { rfc2822_parse(t) }) {
                None => (Err(ParsingError::Chrono), s),
                Some(d) => (Ok(if i == 0 { PropertyValueView::CreationDate(d) } else { PropertyValueView::GetLastModified(d) }), s),
            },
        }
    } else if i == 3 {
        match tag_string_spec(evs, st) {
            (Err(e), s) => (Err(e), s),
            (Ok(t), s2) => match u64_of(t) {
                None => (Err(ParsingError::Int), s2),
                Some(n) => match close_spec(evs, s2) {
                    (Err(e), s) => (Err(e), s),
                    (Ok(_), s3) => (Ok(PropertyValueView::GetContentLength(n)), s3),
                },
            },
        }
    } else if i == 7 {
        match collect_close_spec::<ActiveLock>(evs, st) {
            (Err(e), s) => (Err(e), s),
            (Ok(v), s) => (Ok(PropertyValueView::LockDiscovery(v)), s),
        }
    } else if i == 8 {
        match collect_close_spec::<ResourceType<E>>(evs, st) {
            (Err(e), s) => (Err(e), s),
            (Ok(v), s) => (Ok(PropertyValueView::ResourceType(v)), s),
        }
    } else if i == 9 {
        match collect_close_spec::<LockEntry>(evs, st) {
            (Err(e), s) => (Err(e), s),
            (Ok(v), s) => (Ok(PropertyValueView::SupportedLock(v)), s),
        }
    } else {
        match text_close_spec(evs, st) {
            (Err(e), s) => (Err(e), s),
            (Ok(t), s) => (
                Ok(
                    if i == 1 {
                        PropertyValueView::DisplayName(t)
                    } else if i == 2 {
                        PropertyValueView::GetContentLanguage(t)
                    } else if i == 4 {
                        PropertyValueView::GetContentType(t)
                    } else {
                        PropertyValueView::GetEtag(t)
                    },
                ),
                s,
            ),
        }
    }
}

/// A property value: the first core property whose element is the
/// current one and written with an opening tag, else the extension's
/// value.
pub open spec fn property_spec<E: Extension>(evs: Seq<XmlEvent>, st: RState) -> (
    Result<PropertyValueView<<E::Property as View>::V, <E::ResourceType as View>::V>, ParsingError>,
    RState,
) where E::Property: QRead, E::ResourceType: QRead {
    match open_first_spec(evs, st, DAV_URN@, core_property_names(), 0) {
        (Ok(i), s1) => core_value_spec::<E>(evs, s1, i),
        (Err(ParsingError::Recoverable), _) => match E::Property::qread_spec(evs, st) {
            (Ok(x), s) => (Ok(PropertyValueView::Extension(x)), s),
            (Err(e), s) => (Err(e), s),
        },
        (Err(e), s) => (Err(e), s),
    }
}

/// Reads the text of the element just opened, then closes it.
pub(crate) fn text_close(xml: &mut Reader) -> (r: Result<String, ParsingError>)
    requires
        old(xml).wf(),
    ensures
        final(xml).wf(),
        final(xml).evs() == old(xml).evs(),
        match r {
            Ok(t) => text_close_spec(old(xml).evs(), old(xml).st()).0 == Ok::<Seq<char>, ParsingError>(t@),
            Err(e) => text_close_spec(old(xml).evs(), old(xml).st()).0 == Err::<Seq<char>, ParsingError>(e),
        },
        final(xml).st() == text_close_spec(old(xml).evs(), old(xml).st()).1,
        final(xml).st().pos >= old(xml).st().pos,
{
    let t = xml.tag_string()?;
    xml.close()?;
    Ok(t)
}

/// Reads the value of the `i`-th core property, whose element was just
/// opened; see `core_value_spec`.
fn read_core_value<E: Extension>(xml: &mut Reader, i: usize) -> (r: Result<Property<E>, ParsingError>)
    where E::Property: View, E::ResourceType: QRead
    requires
        old(xml).wf(),
        i < 10,
    ensures
        final(xml).wf(),
        final(xml).evs() == old(xml).evs(),
        res_view(r) == core_value_spec::<E>(old(xml).evs(), old(xml).st(), i as int).0,
        final(xml).st() == core_value_spec::<E>(old(xml).evs(), old(xml).st(), i as int).1,
        final(xml).st().pos >= old(xml).st().pos,
{
    if i == 0 || i == 6 {
        let datestr = text_close(xml)?;
        let parsed = if i == 0 {
            parse_rfc3339(datestr.as_str())
        } else {
            parse_rfc2822(datestr.as_str())
        };
        match parsed {
            None => Err(ParsingError::Chrono),
            Some(d) => Ok(if i == 0 { Property::CreationDate(d) } else { Property::GetLastModified(d) }),
        }
    } else if i == 3 {
        let text = xml.tag_string()?;
        let cl = match parse_u64(text.as_str()) {
            None => return Err(ParsingError::Int),
            Some(n) => n,
        };
        xml.close()?;
        Ok(Property::GetContentLength(cl))
    } else if i == 7 {
        let acc = collect_close::<ActiveLock>(xml)?;
        Ok(Property::LockDiscovery(acc))
    } else if i == 8 {
        let acc = collect_close::<ResourceType<E>>(xml)?;
        Ok(Property::ResourceType(acc))
    } else if i == 9 {
        let acc = collect_close::<LockEntry>(xml)?;
        Ok(Property::SupportedLock(acc))
    } else {
        let t = text_close(xml)?;
        Ok(
            if i == 1 {
                Property::DisplayName(t)
            } else if i == 2 {
                Property::GetContentLanguage(t)
            } else if i == 4 {
                Property::GetContentType(t)
            } else {
                Property::GetEtag(t)
            },
        )
    }
}

impl<E: Extension> QRead for Property<E> where E::Property: QRead, E::ResourceType: QRead {
    open spec fn qread_spec(evs: Seq<XmlEvent>, st: RState) -> (Result<Self::V, ParsingError>, RState) {
        property_spec::<E>(evs, st)
    }

    fn qread(xml: &mut Reader) -> (r: Result<Self, ParsingError>) {
        let keys: Vec<&str> = vec![
            "creationdate",
            "displayname",
            "getcontentlanguage",
            "getcontentlength",
            "getcontenttype",
            "getetag",
            "getlastmodified",
            "lockdiscovery",
            "resourcetype",
            "supportedlock",
        ];
        assert(keys_view(keys@) =~= core_property_names());
        match open_first(xml, DAV_URN, &keys) {
            Ok(i) => read_core_value::<E>(xml, i),
            Err(ParsingError::Recoverable) => match E::Property::qread(xml) {
                Ok(x) => Ok(Property::Extension(x)),
                Err(e) => Err(e),
            },
            Err(e) => Err(e),
        }
    }
}

impl<E: Extension> View for PropValue<E> where E::Property: View, E::ResourceType: View {
    type V = Seq<PropertyValueView<<E::Property as View>::V, <E::ResourceType as View>::V>>;

    open spec fn view(&self) -> Self::V {
        views(self.0@)
    }
}

/// `<D:prop>` holding property values.
pub open spec fn prop_value_spec<E: Extension>(evs: Seq<XmlEvent>, st: RState) -> (
    Result<Seq<PropertyValueView<<E::Property as View>::V, <E::ResourceType as View>::V>>, ParsingError>,
    RState,
) where E::Property: QRead, E::ResourceType: QRead {
    match open_spec(evs, st, DAV_URN@, "prop"@) {
        (Err(e), s) => (Err(e), s),
        (Ok(_), s1) => collect_close_spec::<Property<E>>(evs, s1),
    }
}

impl<E: Extension> QRead for PropValue<E> where E::Property: QRead, E::ResourceType: QRead {
    open spec fn qread_spec(evs: Seq<XmlEvent>, st: RState) -> (Result<Self::V, ParsingError>, RState) {
        prop_value_spec::<E>(evs, st)
    }

    fn qread(xml: &mut Reader) -> (r: Result<Self, ParsingError>) {
        xml.open(DAV_URN, "prop")?;
        let acc = collect_close::<Property<E>>(xml)?;
        Ok(PropValue(acc))
    }
}

/// The element `D:key` and the first value of type `N` among its
/// children.
pub open spec fn find_in_spec<N: QRead>(evs: Seq<XmlEvent>, st: RState, key: Seq<char>) -> (Result<N::V, ParsingError>, RState) {
    match open_spec(evs, st, DAV_URN@, key) {
        (Err(e), s) => (Err(e), s),
        (Ok(_), s1) => match find_spec::<N>(evs, s1) {
            (Err(e), s) => (Err(e), s),
            (Ok(v), s2) => match close_spec(evs, s2) {
                (Err(e), s) => (Err(e), s),
                (Ok(_), s3) => (Ok(v), s3),
            },
        },
    }
}

/// Reads the element `D:key` and the first value of type `N` among its
/// children.
fn read_find_in<N: QRead>(xml: &mut Reader, key: &str) -> (r: Result<N, ParsingError>)
    requires
        old(xml).wf(),
    ensures
        final(xml).wf(),
        final(xml).evs() == old(xml).evs(),
        res_view(r) == find_in_spec::<N>(old(xml).evs(), old(xml).st(), key@).0,
        final(xml).st() == find_in_spec::<N>(old(xml).evs(), old(xml).st(), key@).1,
        final(xml).st().pos >= old(xml).st().pos,
        r is Ok ==> final(xml).st().pos > old(xml).st().pos,
{
    xml.open(DAV_URN, key)?;
    let v = xml.find::<N>()?;
    xml.close()?;
    Ok(v)
}

impl<E: Extension> View for Remove<E> where E::PropertyRequest: View {
    type V = Seq<PropertyRequestView<<E::PropertyRequest as View>::V>>;

    open spec fn view(&self) -> Self::V {
        self.0@
    }
}

impl<E: Extension> QRead for Remove<E> where E::PropertyRequest: QRead {
    open spec fn qread_spec(evs: Seq<XmlEvent>, st: RState) -> (Result<Self::V, ParsingError>, RState) {
        find_in_spec::<PropName<E>>(evs, st, "remove"@)
    }

    fn qread(xml: &mut Reader) -> (r: Result<Self, ParsingError>) {
        let propname = read_find_in::<PropName<E>>(xml, "remove")?;
        Ok(Remove(propname))
    }
}

impl<E: Extension> View for PropSet<E> where E::Property: View, E::ResourceType: View {
    type V = Seq<PropertyValueView<<E::Property as View>::V, <E::ResourceType as View>::V>>;

    open spec fn view(&self) -> Self::V {
        self.0@
    }
}

impl<E: Extension> QRead for PropSet<E> where E::Property: QRead, E::ResourceType: QRead {
    open spec fn qread_spec(evs: Seq<XmlEvent>, st: RState) -> (Result<Self::V, ParsingError>, RState) {
        find_in_spec::<PropValue<E>>(evs, st, "set"@)
    }

    fn qread(xml: &mut Reader) -> (r: Result<Self, ParsingError>) {
        let propvalue = read_find_in::<PropValue<E>>(xml, "set")?;
        Ok(PropSet(propvalue))
    }
}

/// A PROPPATCH step by its view.
pub enum PropertyUpdateItemView<Q, P, R> {
    Remove(Seq<PropertyRequestView<Q>>),
    SetValues(Seq<PropertyValueView<P, R>>),
}

impl<E: Extension> View for PropertyUpdateItem<E> where
    E::PropertyRequest: View,
    E::Property: View,
    E::ResourceType: View,
 {
    type V = PropertyUpdateItemView<
        <E::PropertyRequest as View>::V,
        <E::Property as View>::V,
        <E::ResourceType as View>::V,
    >;

    open spec fn view(&self) -> Self::V {
        match self {
            PropertyUpdateItem::Remove(r) => PropertyUpdateItemView::Remove(r@),
            PropertyUpdateItem::SetValues(v) => PropertyUpdateItemView::SetValues(v@),
        }
    }
}

/// A PROPPATCH step: a `remove`, else a `set` read where the attempt
/// left the cursor.
pub open spec fn update_item_spec<E: Extension>(evs: Seq<XmlEvent>, st: RState) -> (
    Result<
        PropertyUpdateItemView<
            <E::PropertyRequest as View>::V,
            <E::Property as View>::V,
            <E::ResourceType as View>::V,
        >,
        ParsingError,
    >,
    RState,
) where E::PropertyRequest: QRead, E::Property: QRead, E::ResourceType: QRead {
    match find_in_spec::<PropName<E>>(evs, st, "remove"@) {
        (Ok(v), s) => (Ok(PropertyUpdateItemView::Remove(v)), s),
        (Err(ParsingError::Recoverable), s1) => match find_in_spec::<PropValue<E>>(evs, s1, "set"@) {
            (Ok(v), s) => (Ok(PropertyUpdateItemView::SetValues(v)), s),
            (Err(e), s) => (Err(e), s),
        },
        (Err(e), s) => (Err(e), s),
    }
}

impl<E: Extension> QRead for PropertyUpdateItem<E> where
    E::PropertyRequest: QRead,
    E::Property: QRead,
    E::ResourceType: QRead,
 {
    open spec fn qread_spec(evs: Seq<XmlEvent>, st: RState) -> (Result<Self::V, ParsingError>, RState) {
        update_item_spec::<E>(evs, st)
    }

    fn qread(xml: &mut Reader) -> (r: Result<Self, ParsingError>) {
        match Remove::<E>::qread(xml) {
            Ok(v) => return Ok(PropertyUpdateItem::Remove(v)),
            Err(ParsingError::Recoverable) => {},
            Err(e) => return Err(e),
        }
        match PropSet::<E>::qread(xml) {
            Ok(v) => Ok(PropertyUpdateItem::SetValues(v)),
            Err(e) => Err(e),
        }
    }
}

impl<E: Extension> View for PropertyUpdate<E> where
    E::PropertyRequest: View,
    E::Property: View,
    E::ResourceType: View,
 {
    type V = Seq<
        PropertyUpdateItemView<
            <E::PropertyRequest as View>::V,
            <E::Property as View>::V,
            <E::ResourceType as View>::V,
        >,
    >;

    open spec fn view(&self) -> Self::V {
        views(self.0@)
    }
}

impl<E: Extension> QRead for PropertyUpdate<E> where
    E::PropertyRequest: QRead,
    E::Property: QRead,
    E::ResourceType: QRead,
 {
    open spec fn qread_spec(evs: Seq<XmlEvent>, st: RState) -> (Result<Self::V, ParsingError>, RState) {
        match open_spec(evs, st, DAV_URN@, "propertyupdate"@) {
            (Err(e), s) => (Err(e), s),
            (Ok(_), s1) => collect_close_spec::<PropertyUpdateItem<E>>(evs, s1),
        }
    }

    fn qread(xml: &mut Reader) -> (r: Result<Self, ParsingError>) {
        xml.open(DAV_URN, "propertyupdate")?;
        let items = collect_close::<PropertyUpdateItem<E>>(xml)?;
        Ok(PropertyUpdate(items))
    }
}

/// A property name or value by its view.
pub enum AnyPropertyView<Q, P, R> {
    Request(PropertyRequestView<Q>),
    Value(PropertyValueView<P, R>),
}

impl<E: Extension> View for AnyProperty<E> where
    E::PropertyRequest: View,
    E::Property: View,
    E::ResourceType: View,
 {
    type V = AnyPropertyView<<E::PropertyRequest as View>::V, <E::Property as View>::V, <E::ResourceType as View>::V>;

    open spec fn view(&self) -> Self::V {
        match self {
            AnyProperty::Request(r) => AnyPropertyView::Request(r@),
            AnyProperty::Value(v) => AnyPropertyView::Value(v@),
        }
    }
}

/// A property value if one reads, else a property name read where the
/// attempt left the cursor.
pub open spec fn any_property_spec<E: Extension>(evs: Seq<XmlEvent>, st: RState) -> (
    Result<
        AnyPropertyView<<E::PropertyRequest as View>::V, <E::Property as View>::V, <E::ResourceType as View>::V>,
        ParsingError,
    >,
    RState,
) where E::PropertyRequest: QRead, E::Property: QRead, E::ResourceType: QRead {
    match property_spec::<E>(evs, st) {
        (Ok(v), s) => (Ok(AnyPropertyView::Value(v)), s),
        (Err(ParsingError::Recoverable), s1) => match property_request_spec::<E::PropertyRequest>(evs, s1) {
            (Ok(r), s) => (Ok(AnyPropertyView::Request(r)), s),
            (Err(e), s) => (Err(e), s),
        },
        (Err(e), s) => (Err(e), s),
    }
}

impl<E: Extension> QRead for AnyProperty<E> where
    E::PropertyRequest: QRead,
    E::Property: QRead,
    E::ResourceType: QRead,
 {
    open spec fn qread_spec(evs: Seq<XmlEvent>, st: RState) -> (Result<Self::V, ParsingError>, RState) {
        any_property_spec::<E>(evs, st)
    }

    fn qread(xml: &mut Reader) -> (r: Result<Self, ParsingError>) {
        match Property::<E>::qread(xml) {
            Ok(v) => return Ok(AnyProperty::Value(v)),
            Err(ParsingError::Recoverable) => {},
            Err(e) => return Err(e),
        }
        match PropertyRequest::<E>::qread(xml) {
            Ok(r) => Ok(AnyProperty::Request(r)),
            Err(e) => Err(e),
        }
    }
}

impl<E: Extension> View for AnyProp<E> where
    E::PropertyRequest: View,
    E::Property: View,
    E::ResourceType: View,
 {
    type V = Seq<
        AnyPropertyView<<E::PropertyRequest as View>::V, <E::Property as View>::V, <E::ResourceType as View>::V>,
    >;

    open spec fn view(&self) -> Self::V {
        views(self.0@)
    }
}

impl<E: Extension> QRead for AnyProp<E> where
    E::PropertyRequest: QRead,
    E::Property: QRead,
    E::ResourceType: QRead,
 {
    open spec fn qread_spec(evs: Seq<XmlEvent>, st: RState) -> (Result<Self::V, ParsingError>, RState) {
        match open_spec(evs, st, DAV_URN@, "prop"@) {
            (Err(e), s) => (Err(e), s),
            (Ok(_), s1) => collect_close_spec::<AnyProperty<E>>(evs, s1),
        }
    }

    fn qread(xml: &mut Reader) -> (r: Result<Self, ParsingError>) {
        xml.open(DAV_URN, "prop")?;
        let acc = collect_close::<AnyProperty<E>>(xml)?;
        Ok(AnyProp(acc))
    }
}

/// A propstat by its view.
pub struct PropStatView<Q, P, R, X> {
    pub prop: Seq<AnyPropertyView<Q, P, R>>,
    pub status: u16,
    pub error: Option<Seq<ViolationView<X>>>,
    pub responsedescription: Option<Seq<char>>,
}

impl<E: Extension> View for PropStat<E> where
    E::PropertyRequest: View,
    E::Property: View,
    E::ResourceType: View,
    E::Error: View,
 {
    type V = PropStatView<
        <E::PropertyRequest as View>::V,
        <E::Property as View>::V,
        <E::ResourceType as View>::V,
        <E::Error as View>::V,
    >;

    open spec fn view(&self) -> Self::V {
        PropStatView {
            prop: self.prop@,
            status: self.status@,
            error: opt_view(self.error),
            responsedescription: opt_view(self.responsedescription),
        }
    }
}

/// What has been read of a propstat so far.
pub struct PropStatSlots<Q, P, R, X> {
    pub prop: Option<Seq<AnyPropertyView<Q, P, R>>>,
    pub status: Option<u16>,
    pub error: Option<Seq<ViolationView<X>>>,
    pub responsedescription: Option<Seq<char>>,
}

/// One pass over the children of a propstat: the properties, the status,
/// the error and the description, each read where it stands.
pub open spec fn propstat_step<E: Extension>(
    evs: Seq<XmlEvent>,
    st: RState,
    sl: PropStatSlots<
        <E::PropertyRequest as View>::V,
        <E::Property as View>::V,
        <E::ResourceType as View>::V,
        <E::Error as View>::V,
    >,
) -> (
    Result<(), ParsingError>,
    RState,
    PropStatSlots<
        <E::PropertyRequest as View>::V,
        <E::Property as View>::V,
        <E::ResourceType as View>::V,
        <E::Error as View>::V,
    >,
    bool,
) where E::PropertyRequest: QRead, E::Property: QRead, E::ResourceType: QRead, E::Error: QRead {
    let (r1, s1, a, d1) = maybe_read_spec::<AnyProp<E>>(evs, st, sl.prop, false);
    if r1 is Err {
        (r1, s1, PropStatSlots { prop: a, ..sl }, d1)
    } else {
        let (r2, s2, b, d2) = maybe_read_spec::<Status>(evs, s1, sl.status, d1);
        if r2 is Err {
            (r2, s2, PropStatSlots { prop: a, status: b, ..sl }, d2)
        } else {
            let (r3, s3, c, d3) = maybe_read_spec::<Error<E>>(evs, s2, sl.error, d2);
            if r3 is Err {
                (r3, s3, PropStatSlots { prop: a, status: b, error: c, ..sl }, d3)
            } else {
                let (r4, s4, d, d4) = maybe_read_spec::<ResponseDescription>(evs, s3, sl.responsedescription, d3);
                (r4, s4, PropStatSlots { prop: a, status: b, error: c, responsedescription: d }, d4)
            }
        }
    }
}

/// Passes over the children of a propstat until a pass reads nothing at
/// its closing tag; the nodes where nothing reads are skipped.
pub open spec fn propstat_loop<E: Extension>(
    evs: Seq<XmlEvent>,
    st: RState,
    sl: PropStatSlots<
        <E::PropertyRequest as View>::V,
        <E::Property as View>::V,
        <E::ResourceType as View>::V,
        <E::Error as View>::V,
    >,
) -> (
    Result<(), ParsingError>,
    RState,
    PropStatSlots<
        <E::PropertyRequest as View>::V,
        <E::Property as View>::V,
        <E::ResourceType as View>::V,
        <E::Error as View>::V,
    >,
) where E::PropertyRequest: QRead, E::Property: QRead, E::ResourceType: QRead, E::Error: QRead
    decreases evs.len() - st.pos,
{
    let (r, s, sl2, dirty) = propstat_step::<E>(evs, st, sl);
    if r is Err {
        (r, s, sl2)
    } else if dirty {
        if st.pos < s.pos <= evs.len() {
            propstat_loop::<E>(evs, s, sl2)
        } else {
            (Err(ParsingError::Eof), s, sl2)
        }
    } else if 0 <= s.pos < evs.len() {
        if evs[s.pos] is End {
            (Ok(()), s, sl2)
        } else {
            match skip_spec(evs, s) {
                (Err(e), s2) => (Err(e), s2, sl2),
                (Ok(_), s2) => if st.pos < s2.pos <= evs.len() {
                    propstat_loop::<E>(evs, s2, sl2)
                } else {
                    (Err(ParsingError::Eof), s2, sl2)
                },
            }
        }
    } else {
        (Err(ParsingError::Eof), s, sl2)
    }
}

/// `<D:propstat>`: properties and a status, both required, with an
/// optional error and description.
pub open spec fn propstat_spec<E: Extension>(evs: Seq<XmlEvent>, st: RState) -> (
    Result<
        PropStatView<
            <E::PropertyRequest as View>::V,
            <E::Property as View>::V,
            <E::ResourceType as View>::V,
            <E::Error as View>::V,
        >,
        ParsingError,
    >,
    RState,
) where E::PropertyRequest: QRead, E::Property: QRead, E::ResourceType: QRead, E::Error: QRead {
    match open_spec(evs, st, DAV_URN@, "propstat"@) {
        (Err(e), s) => (Err(e), s),
        (Ok(_), s1) => match propstat_loop::<E>(
            evs,
            s1,
            PropStatSlots { prop: None, status: None, error: None, responsedescription: None },
        ) {
            (Err(e), s, _) => (Err(e), s),
            (Ok(_), s2, sl) => match close_spec(evs, s2) {
                (Err(e), s) => (Err(e), s),
                (Ok(_), s3) => match (sl.prop, sl.status) {
                    (Some(p), Some(c)) => (
                        Ok(PropStatView { prop: p, status: c, error: sl.error, responsedescription: sl.responsedescription }),
                        s3,
                    ),
                    _ => (Err(ParsingError::MissingChild), s3),
                },
            },
        },
    }
}

impl<E: Extension> QRead for PropStat<E> where
    E::PropertyRequest: QRead,
    E::Property: QRead,
    E::ResourceType: QRead,
    E::Error: QRead,
 {
    open spec fn qread_spec(evs: Seq<XmlEvent>, st: RState) -> (Result<Self::V, ParsingError>, RState) {
        propstat_spec::<E>(evs, st)
    }

    #[verifier::spinoff_prover]
    #[verifier::rlimit(40)]
    fn qread(xml: &mut Reader) -> (r: Result<Self, ParsingError>) {
        xml.open(DAV_URN, "propstat")?;
        let ghost evs = xml.evs();
        let ghost s1 = xml.st();
        let ghost start = old(xml).st();
        let mut m_any_prop: Option<AnyProp<E>> = None;
        let mut m_status: Option<Status> = None;
        let mut error: Option<Error<E>> = None;
        let mut responsedescription: Option<ResponseDescription> = None;
        loop
            invariant_except_break
                propstat_loop::<E>(
                    evs,
                    xml.st(),
                    PropStatSlots {
                        prop: opt_view(m_any_prop),
                        status: opt_view(m_status),
                        error: opt_view(error),
                        responsedescription: opt_view(responsedescription),
                    },
                ) == propstat_loop::<E>(
                    evs,
                    s1,
                    PropStatSlots { prop: None, status: None, error: None, responsedescription: None },
                ),
            invariant
                xml.wf(),
                xml.evs() == evs,
                evs == old(xml).evs(),
                start == old(xml).st(),
                xml.st().pos >= s1.pos,
                s1.pos >= start.pos,
                open_spec(evs, start, DAV_URN@, "propstat"@).1 == s1,
                open_spec(evs, start, DAV_URN@, "propstat"@).0 is Ok,
            ensures
                propstat_loop::<E>(
                    evs,
                    s1,
                    PropStatSlots { prop: None, status: None, error: None, responsedescription: None },
                ) == (
                    Ok::<(), ParsingError>(()),
                    xml.st(),
                    PropStatSlots {
                        prop: opt_view(m_any_prop),
                        status: opt_view(m_status),
                        error: opt_view(error),
                        responsedescription: opt_view(responsedescription),
                    },
                ),
            decreases evs.len() - xml.st().pos,
        {
            let ghost here = xml.st();
            let mut dirty = false;
            xml.maybe_read(&mut m_any_prop, &mut dirty)?;
            xml.maybe_read(&mut m_status, &mut dirty)?;
            xml.maybe_read(&mut error, &mut dirty)?;
            xml.maybe_read(&mut responsedescription, &mut dirty)?;
            if !dirty {
                if let XmlEvent::End(_) = xml.peek() {
                    break;
                }
                proof {
                    lemma_skip(evs, xml.st());
                }
                xml.skip()?;
            }
            assert(here.pos < xml.st().pos);
        }
        xml.close()?;
        match (m_any_prop, m_status) {
            (Some(prop), Some(status)) => Ok(PropStat { prop, status, error, responsedescription }),
            _ => Err(ParsingError::MissingChild),
        }
    }
}

/// The two shapes of a response by their views.
pub enum StatusOrPropstatView<Q, P, R, X> {
    Status(Seq<Seq<char>>, u16),
    PropStat(Seq<char>, Seq<PropStatView<Q, P, R, X>>),
}

/// A response by its view.
pub struct ResponseView<Q, P, R, X> {
    pub status_or_propstat: StatusOrPropstatView<Q, P, R, X>,
    pub error: Option<Seq<ViolationView<X>>>,
    pub responsedescription: Option<Seq<char>>,
    pub location: Option<Seq<char>>,
}

impl<E: Extension> View for Response<E> where
    E::PropertyRequest: View,
    E::Property: View,
    E::ResourceType: View,
    E::Error: View,
 {
    type V = ResponseView<
        <E::PropertyRequest as View>::V,
        <E::Property as View>::V,
        <E::ResourceType as View>::V,
        <E::Error as View>::V,
    >;

    open spec fn view(&self) -> Self::V {
        ResponseView {
            status_or_propstat: match &self.status_or_propstat {
                StatusOrPropstat::Status(h, c) => StatusOrPropstatView::Status(views(h@), c@),
                StatusOrPropstat::PropStat(h, p) => StatusOrPropstatView::PropStat(h@, views(p@)),
            },
            error: opt_view(self.error),
            responsedescription: opt_view(self.responsedescription),
            location: opt_view(self.location),
        }
    }
}

/// What has been read of a response so far.
pub struct ResponseSlots<Q, P, R, X> {
    pub status: Option<u16>,
    pub href: Seq<Seq<char>>,
    pub propstat: Seq<PropStatView<Q, P, R, X>>,
    pub error: Option<Seq<ViolationView<X>>>,
    pub responsedescription: Option<Seq<char>>,
    pub location: Option<Seq<char>>,
}

/// One pass over the children of a response: the status, a reference, a
/// propstat, the error, the description and the location, each read where
/// it stands.
pub open spec fn response_step<E: Extension>(
    evs: Seq<XmlEvent>,
    st: RState,
    sl: ResponseSlots<
        <E::PropertyRequest as View>::V,
        <E::Property as View>::V,
        <E::ResourceType as View>::V,
        <E::Error as View>::V,
    >,
) -> (
    Result<(), ParsingError>,
    RState,
    ResponseSlots<
        <E::PropertyRequest as View>::V,
        <E::Property as View>::V,
        <E::ResourceType as View>::V,
        <E::Error as View>::V,
    >,
    bool,
) where E::PropertyRequest: QRead, E::Property: QRead, E::ResourceType: QRead, E::Error: QRead {
    let (r1, s1, a, d1) = maybe_read_spec::<Status>(evs, st, sl.status, false);
    if r1 is Err {
        (r1, s1, ResponseSlots { status: a, ..sl }, d1)
    } else {
        let (r2, s2, b, d2) = maybe_push_spec::<Href>(evs, s1, sl.href, d1);
        if r2 is Err {
            (r2, s2, ResponseSlots { status: a, href: b, ..sl }, d2)
        } else {
            let (r3, s3, c, d3) = maybe_push_spec::<PropStat<E>>(evs, s2, sl.propstat, d2);
            if r3 is Err {
                (r3, s3, ResponseSlots { status: a, href: b, propstat: c, ..sl }, d3)
            } else {
                let (r4, s4, d, d4) = maybe_read_spec::<Error<E>>(evs, s3, sl.error, d3);
                if r4 is Err {
                    (r4, s4, ResponseSlots { status: a, href: b, propstat: c, error: d, ..sl }, d4)
                } else {
                    let (r5, s5, e, d5) = maybe_read_spec::<ResponseDescription>(evs, s4, sl.responsedescription, d4);
                    if r5 is Err {
                        (
                            r5,
                            s5,
                            ResponseSlots { status: a, href: b, propstat: c, error: d, responsedescription: e, ..sl },
                            d5,
                        )
                    } else {
                        let (r6, s6, f, d6) = maybe_read_spec::<Location>(evs, s5, sl.location, d5);
                        (
                            r6,
                            s6,
                            ResponseSlots {
                                status: a,
                                href: b,
                                propstat: c,
                                error: d,
                                responsedescription: e,
                                location: f,
                            },
                            d6,
                        )
                    }
                }
            }
        }
    }
}

/// Passes over the children of a response until a pass reads nothing at
/// its closing tag; the nodes where nothing reads are skipped.
pub open spec fn response_loop<E: Extension>(
    evs: Seq<XmlEvent>,
    st: RState,
    sl: ResponseSlots<
        <E::PropertyRequest as View>::V,
        <E::Property as View>::V,
        <E::ResourceType as View>::V,
        <E::Error as View>::V,
    >,
) -> (
    Result<(), ParsingError>,
    RState,
    ResponseSlots<
        <E::PropertyRequest as View>::V,
        <E::Property as View>::V,
        <E::ResourceType as View>::V,
        <E::Error as View>::V,
    >,
) where E::PropertyRequest: QRead, E::Property: QRead, E::ResourceType: QRead, E::Error: QRead
    decreases evs.len() - st.pos,
{
    let (r, s, sl2, dirty) = response_step::<E>(evs, st, sl);
    if r is Err {
        (r, s, sl2)
    } else if dirty {
        if st.pos < s.pos <= evs.len() {
            response_loop::<E>(evs, s, sl2)
        } else {
            (Err(ParsingError::Eof), s, sl2)
        }
    } else if 0 <= s.pos < evs.len() {
        if evs[s.pos] is End {
            (Ok(()), s, sl2)
        } else {
            match skip_spec(evs, s) {
                (Err(e), s2) => (Err(e), s2, sl2),
                (Ok(_), s2) => if st.pos < s2.pos <= evs.len() {
                    response_loop::<E>(evs, s2, sl2)
                } else {
                    (Err(ParsingError::Eof), s2, sl2)
                },
            }
        }
    } else {
        (Err(ParsingError::Eof), s, sl2)
    }
}

/// The response that the children read make: a status with at least one
/// reference and no propstat, or at least one propstat (for the first
/// reference) with no status. A status beside propstats is
/// `InvalidValue`; anything else lacks a child.
pub open spec fn response_of<Q, P, R, X>(sl: ResponseSlots<Q, P, R, X>) -> Result<ResponseView<Q, P, R, X>, ParsingError> {
    if sl.status is Some && sl.propstat.len() == 0 && sl.href.len() > 0 {
        Ok(
            ResponseView {
                status_or_propstat: StatusOrPropstatView::Status(sl.href, sl.status->0),
                error: sl.error,
                responsedescription: sl.responsedescription,
                location: sl.location,
            },
        )
    } else if sl.status is None && sl.propstat.len() > 0 && sl.href.len() > 0 {
        Ok(
            ResponseView {
                status_or_propstat: StatusOrPropstatView::PropStat(sl.href[0], sl.propstat),
                error: sl.error,
                responsedescription: sl.responsedescription,
                location: sl.location,
            },
        )
    } else if sl.status is Some && sl.propstat.len() > 0 {
        Err(ParsingError::InvalidValue)
    } else {
        Err(ParsingError::MissingChild)
    }
}

/// The empty slots of a response.
pub open spec fn no_response_slots<Q, P, R, X>() -> ResponseSlots<Q, P, R, X> {
    ResponseSlots {
        status: None,
        href: Seq::empty(),
        propstat: Seq::empty(),
        error: None,
        responsedescription: None,
        location: None,
    }
}

/// `<D:response>`; see `response_of`.
pub open spec fn response_spec<E: Extension>(evs: Seq<XmlEvent>, st: RState) -> (
    Result<
        ResponseView<
            <E::PropertyRequest as View>::V,
            <E::Property as View>::V,
            <E::ResourceType as View>::V,
            <E::Error as View>::V,
        >,
        ParsingError,
    >,
    RState,
) where E::PropertyRequest: QRead, E::Property: QRead, E::ResourceType: QRead, E::Error: QRead {
    match open_spec(evs, st, DAV_URN@, "response"@) {
        (Err(e), s) => (Err(e), s),
        (Ok(_), s1) => match response_loop::<E>(evs, s1, no_response_slots()) {
            (Err(e), s, _) => (Err(e), s),
            (Ok(_), s2, sl) => match close_spec(evs, s2) {
                (Err(e), s) => (Err(e), s),
                (Ok(_), s3) => (response_of(sl), s3),
            },
        },
    }
}

impl<E: Extension> QRead for Response<E> where
    E::PropertyRequest: QRead,
    E::Property: QRead,
    E::ResourceType: QRead,
    E::Error: QRead,
 {
    open spec fn qread_spec(evs: Seq<XmlEvent>, st: RState) -> (Result<Self::V, ParsingError>, RState) {
        response_spec::<E>(evs, st)
    }

    #[verifier::spinoff_prover]
    #[verifier::rlimit(40)]
    fn qread(xml: &mut Reader) -> (r: Result<Self, ParsingError>) {
        xml.open(DAV_URN, "response")?;
        let ghost evs = xml.evs();
        let ghost s1 = xml.st();
        let ghost start = old(xml).st();
        let mut status: Option<Status> = None;
        let mut error: Option<Error<E>> = None;
        let mut responsedescription: Option<ResponseDescription> = None;
        let mut location: Option<Location> = None;
        let mut href: Vec<Href> = Vec::new();
        let mut propstat: Vec<PropStat<E>> = Vec::new();
        proof {
            assert(views(href@) =~= Seq::<Seq<char>>::empty());
            assert(views(propstat@) =~= Seq::<<PropStat<E> as View>::V>::empty());
        }
        loop
            invariant_except_break
                response_loop::<E>(
                    evs,
                    xml.st(),
                    ResponseSlots {
                        status: opt_view(status),
                        href: views(href@),
                        propstat: views(propstat@),
                        error: opt_view(error),
                        responsedescription: opt_view(responsedescription),
                        location: opt_view(location),
                    },
                ) == response_loop::<E>(evs, s1, no_response_slots()),
            invariant
                xml.wf(),
                xml.evs() == evs,
                evs == old(xml).evs(),
                start == old(xml).st(),
                xml.st().pos >= s1.pos,
                s1.pos >= start.pos,
                open_spec(evs, start, DAV_URN@, "response"@).1 == s1,
                open_spec(evs, start, DAV_URN@, "response"@).0 is Ok,
            ensures
                response_loop::<E>(evs, s1, no_response_slots()) == (
                    Ok::<(), ParsingError>(()),
                    xml.st(),
                    ResponseSlots {
                        status: opt_view(status),
                        href: views(href@),
                        propstat: views(propstat@),
                        error: opt_view(error),
                        responsedescription: opt_view(responsedescription),
                        location: opt_view(location),
                    },
                ),
            decreases evs.len() - xml.st().pos,
        {
            let ghost here = xml.st();
            let mut dirty = false;
            xml.maybe_read(&mut status, &mut dirty)?;
            xml.maybe_push(&mut href, &mut dirty)?;
            xml.maybe_push(&mut propstat, &mut dirty)?;
            xml.maybe_read(&mut error, &mut dirty)?;
            xml.maybe_read(&mut responsedescription, &mut dirty)?;
            xml.maybe_read(&mut location, &mut dirty)?;
            if !dirty {
                if let XmlEvent::End(_) = xml.peek() {
                    break;
                }
                proof {
                    lemma_skip(evs, xml.st());
                }
                xml.skip()?;
            }
            assert(here.pos < xml.st().pos);
        }
        xml.close()?;
        let ghost sl = ResponseSlots {
            status: opt_view(status),
            href: views(href@),
            propstat: views(propstat@),
            error: opt_view(error),
            responsedescription: opt_view(responsedescription),
            location: opt_view(location),
        };
        match status {
            Some(code) => {
                if propstat.len() == 0 && href.len() > 0 {
                    Ok(Response {
                        status_or_propstat: StatusOrPropstat::Status(href, code),
                        error,
                        responsedescription,
                        location,
                    })
                } else if propstat.len() > 0 {
                    Err(ParsingError::InvalidValue)
                } else {
                    Err(ParsingError::MissingChild)
                }
            },
            None => {
                if propstat.len() > 0 && href.len() > 0 {
                    let first = href.swap_remove(0);
                    Ok(Response {
                        status_or_propstat: StatusOrPropstat::PropStat(first, propstat),
                        error,
                        responsedescription,
                        location,
                    })
                } else {
                    Err(ParsingError::MissingChild)
                }
            },
        }
    }
}

/// A multistatus body by its view.
pub struct MultistatusView<Q, P, R, X, M> {
    pub responses: Seq<ResponseView<Q, P, R, X>>,
    pub responsedescription: Option<Seq<char>>,
    pub extension: Option<M>,
}

impl<E: Extension> View for Multistatus<E> where
    E::PropertyRequest: View,
    E::Property: View,
    E::ResourceType: View,
    E::Error: View,
    E::Multistatus: View,
 {
    type V = MultistatusView<
        <E::PropertyRequest as View>::V,
        <E::Property as View>::V,
        <E::ResourceType as View>::V,
        <E::Error as View>::V,
        <E::Multistatus as View>::V,
    >;

    open spec fn view(&self) -> Self::V {
        MultistatusView {
            responses: views(self.responses@),
            responsedescription: opt_view(self.responsedescription),
            extension: opt_view(self.extension),
        }
    }
}

/// What has been read of a multistatus body so far.
pub struct MultistatusSlots<Q, P, R, X, M> {
    pub responses: Seq<ResponseView<Q, P, R, X>>,
    pub responsedescription: Option<Seq<char>>,
    pub extension: Option<M>,
}

/// One pass over the children of a multistatus body: a response, the
/// description and the extension's part, each read where it stands.
pub open spec fn multistatus_step<E: Extension>(
    evs: Seq<XmlEvent>,
    st: RState,
    sl: MultistatusSlots<
        <E::PropertyRequest as View>::V,
        <E::Property as View>::V,
        <E::ResourceType as View>::V,
        <E::Error as View>::V,
        <E::Multistatus as View>::V,
    >,
) -> (
    Result<(), ParsingError>,
    RState,
    MultistatusSlots<
        <E::PropertyRequest as View>::V,
        <E::Property as View>::V,
        <E::ResourceType as View>::V,
        <E::Error as View>::V,
        <E::Multistatus as View>::V,
    >,
    bool,
) where
    E::PropertyRequest: QRead,
    E::Property: QRead,
    E::ResourceType: QRead,
    E::Error: QRead,
    E::Multistatus: QRead,
 {
    let (r1, s1, a, d1) = maybe_push_spec::<Response<E>>(evs, st, sl.responses, false);
    if r1 is Err {
        (r1, s1, MultistatusSlots { responses: a, ..sl }, d1)
    } else {
        let (r2, s2, b, d2) = maybe_read_spec::<ResponseDescription>(evs, s1, sl.responsedescription, d1);
        if r2 is Err {
            (r2, s2, MultistatusSlots { responses: a, responsedescription: b, ..sl }, d2)
        } else {
            let (r3, s3, c, d3) = maybe_read_spec::<E::Multistatus>(evs, s2, sl.extension, d2);
            (r3, s3, MultistatusSlots { responses: a, responsedescription: b, extension: c }, d3)
        }
    }
}

/// Passes over the children of a multistatus body until a pass reads
/// nothing at its closing tag; the nodes where nothing reads are skipped.
pub open spec fn multistatus_loop<E: Extension>(
    evs: Seq<XmlEvent>,
    st: RState,
    sl: MultistatusSlots<
        <E::PropertyRequest as View>::V,
        <E::Property as View>::V,
        <E::ResourceType as View>::V,
        <E::Error as View>::V,
        <E::Multistatus as View>::V,
    >,
) -> (
    Result<(), ParsingError>,
    RState,
    MultistatusSlots<
        <E::PropertyRequest as View>::V,
        <E::Property as View>::V,
        <E::ResourceType as View>::V,
        <E::Error as View>::V,
        <E::Multistatus as View>::V,
    >,
) where
    E::PropertyRequest: QRead,
    E::Property: QRead,
    E::ResourceType: QRead,
    E::Error: QRead,
    E::Multistatus: QRead,
    decreases evs.len() - st.pos,
{
    let (r, s, sl2, dirty) = multistatus_step::<E>(evs, st, sl);
    if r is Err {
        (r, s, sl2)
    } else if dirty {
        if st.pos < s.pos <= evs.len() {
            multistatus_loop::<E>(evs, s, sl2)
        } else {
            (Err(ParsingError::Eof), s, sl2)
        }
    } else if 0 <= s.pos < evs.len() {
        if evs[s.pos] is End {
            (Ok(()), s, sl2)
        } else {
            match skip_spec(evs, s) {
                (Err(e), s2) => (Err(e), s2, sl2),
                (Ok(_), s2) => if st.pos < s2.pos <= evs.len() {
                    multistatus_loop::<E>(evs, s2, sl2)
                } else {
                    (Err(ParsingError::Eof), s2, sl2)
                },
            }
        }
    } else {
        (Err(ParsingError::Eof), s, sl2)
    }
}

/// `<D:multistatus>`: its responses, description and extension part.
pub open spec fn multistatus_spec<E: Extension>(evs: Seq<XmlEvent>, st: RState) -> (
    Result<
        MultistatusView<
            <E::PropertyRequest as View>::V,
            <E::Property as View>::V,
            <E::ResourceType as View>::V,
            <E::Error as View>::V,
            <E::Multistatus as View>::V,
        >,
        ParsingError,
    >,
    RState,
) where
    E::PropertyRequest: QRead,
    E::Property: QRead,
    E::ResourceType: QRead,
    E::Error: QRead,
    E::Multistatus: QRead,
 {
    match open_spec(evs, st, DAV_URN@, "multistatus"@) {
        (Err(e), s) => (Err(e), s),
        (Ok(_), s1) => match multistatus_loop::<E>(
            evs,
            s1,
            MultistatusSlots { responses: Seq::empty(), responsedescription: None, extension: None },
        ) {
            (Err(e), s, _) => (Err(e), s),
            (Ok(_), s2, sl) => match close_spec(evs, s2) {
                (Err(e), s) => (Err(e), s),
                (Ok(_), s3) => (
                    Ok(
                        MultistatusView {
                            responses: sl.responses,
                            responsedescription: sl.responsedescription,
                            extension: sl.extension,
                        },
                    ),
                    s3,
                ),
            },
        },
    }
}

impl<E: Extension> QRead for Multistatus<E> where
    E::PropertyRequest: QRead,
    E::Property: QRead,
    E::ResourceType: QRead,
    E::Error: QRead,
    E::Multistatus: QRead,
 {
    open spec fn qread_spec(evs: Seq<XmlEvent>, st: RState) -> (Result<Self::V, ParsingError>, RState) {
        multistatus_spec::<E>(evs, st)
    }

    #[verifier::spinoff_prover]
    #[verifier::rlimit(40)]
    fn qread(xml: &mut Reader) -> (r: Result<Self, ParsingError>) {
        xml.open(DAV_URN, "multistatus")?;
        let ghost evs = xml.evs();
        let ghost s1 = xml.st();
        let ghost start = old(xml).st();
        let mut responses: Vec<Response<E>> = Vec::new();
        let mut responsedescription: Option<ResponseDescription> = None;
        let mut extension: Option<E::Multistatus> = None;
        proof {
            assert(views(responses@) =~= Seq::<<Response<E> as View>::V>::empty());
        }
        loop
            invariant_except_break
                multistatus_loop::<E>(
                    evs,
                    xml.st(),
                    MultistatusSlots {
                        responses: views(responses@),
                        responsedescription: opt_view(responsedescription),
                        extension: opt_view(extension),
                    },
                ) == multistatus_loop::<E>(
                    evs,
                    s1,
                    MultistatusSlots { responses: Seq::empty(), responsedescription: None, extension: None },
                ),
            invariant
                xml.wf(),
                xml.evs() == evs,
                evs == old(xml).evs(),
                start == old(xml).st(),
                xml.st().pos >= s1.pos,
                s1.pos >= start.pos,
                open_spec(evs, start, DAV_URN@, "multistatus"@).1 == s1,
                open_spec(evs, start, DAV_URN@, "multistatus"@).0 is Ok,
            ensures
                multistatus_loop::<E>(
                    evs,
                    s1,
                    MultistatusSlots { responses: Seq::empty(), responsedescription: None, extension: None },
                ) == (
                    Ok::<(), ParsingError>(()),
                    xml.st(),
                    MultistatusSlots {
                        responses: views(responses@),
                        responsedescription: opt_view(responsedescription),
                        extension: opt_view(extension),
                    },
                ),
            decreases evs.len() - xml.st().pos,
        {
            let ghost here = xml.st();
            let mut dirty = false;
            xml.maybe_push(&mut responses, &mut dirty)?;
            xml.maybe_read(&mut responsedescription, &mut dirty)?;
            xml.maybe_read(&mut extension, &mut dirty)?;
            if !dirty {
                if let XmlEvent::End(_) = xml.peek() {
                    break;
                }
                proof {
                    lemma_skip(evs, xml.st());
                }
                xml.skip()?;
            }
            assert(here.pos < xml.st().pos);
        }
        xml.close()?;
        Ok(Multistatus { responses, responsedescription, extension })
    }
}



/// The DAV element name of a core property value; none for an extension's.
pub open spec fn property_value_name<P, R>(p: PropertyValueView<P, R>) -> Option<Seq<char>> {
    match p {
        PropertyValueView::CreationDate(_) => Some("creationdate"@),
        PropertyValueView::DisplayName(_) => Some("displayname"@),
        PropertyValueView::GetContentLanguage(_) => Some("getcontentlanguage"@),
        PropertyValueView::GetContentLength(_) => Some("getcontentlength"@),
        PropertyValueView::GetContentType(_) => Some("getcontenttype"@),
        PropertyValueView::GetEtag(_) => Some("getetag"@),
        PropertyValueView::GetLastModified(_) => Some("getlastmodified"@),
        PropertyValueView::LockDiscovery(_) => Some("lockdiscovery"@),
        PropertyValueView::ResourceType(_) => Some("resourcetype"@),
        PropertyValueView::SupportedLock(_) => Some("supportedlock"@),
        PropertyValueView::Extension(_) => None,
    }
}

/// The text a core property value made of text holds.
pub open spec fn property_value_text<P, R>(p: PropertyValueView<P, R>) -> Option<Seq<char>> {
    match p {
        PropertyValueView::DisplayName(t) => Some(t),
        PropertyValueView::GetContentLanguage(t) => Some(t),
        PropertyValueView::GetContentType(t) => Some(t),
        PropertyValueView::GetEtag(t) => Some(t),
        _ => None,
    }
}

/// The DAV element name of a core property name; none for an extension's.
pub open spec fn property_request_name<X>(r: PropertyRequestView<X>) -> Option<Seq<char>> {
    match r {
        PropertyRequestView::CreationDate => Some("creationdate"@),
        PropertyRequestView::DisplayName => Some("displayname"@),
        PropertyRequestView::GetContentLanguage => Some("getcontentlanguage"@),
        PropertyRequestView::GetContentLength => Some("getcontentlength"@),
        PropertyRequestView::GetContentType => Some("getcontenttype"@),
        PropertyRequestView::GetEtag => Some("getetag"@),
        PropertyRequestView::GetLastModified => Some("getlastmodified"@),
        PropertyRequestView::LockDiscovery => Some("lockdiscovery"@),
        PropertyRequestView::ResourceType => Some("resourcetype"@),
        PropertyRequestView::SupportedLock => Some("supportedlock"@),
        PropertyRequestView::Extension(_) => None,
    }
}

/// Opening the first of several elements gives the position of a name
/// that the current event bears.
proof fn lemma_open_first_names(evs: Seq<XmlEvent>, st: RState, ns: Seq<char>, keys: Seq<Seq<char>>, i: int)
    ensures
        open_first_spec(evs, st, ns, keys, i).0 matches Ok(j) ==> i <= j < keys.len() && is_tag_spec(evs[st.pos], ns, keys[j]),
    decreases keys.len() - i,
{
    if 0 <= i < keys.len() {
        lemma_open_first_names(evs, st, ns, keys, i + 1);
    }
}

/// Reading the first of several empty or opened elements gives the
/// position of a name that the current event bears.
proof fn lemma_atoms_names(evs: Seq<XmlEvent>, st: RState, ns: Seq<char>, keys: Seq<Seq<char>>, i: int)
    ensures
        atoms_spec(evs, st, ns, keys, i).0 matches Ok(j) ==> i <= j < keys.len() && is_tag_spec(evs[st.pos], ns, keys[j]),
    decreases keys.len() - i,
{
    if 0 <= i < keys.len() {
        lemma_atoms_names(evs, st, ns, keys, i + 1);
    }
}

/// The value read after the `i`-th core property element is opened is the
/// property of that element's name; a property made of text holds the text
/// of the element.
pub proof fn law_core_value_is_named<E: Extension>(evs: Seq<XmlEvent>, st: RState, i: int)
    where E::Property: View, E::ResourceType: QRead
    requires
        0 <= i < 10,
    ensures
        core_value_spec::<E>(evs, st, i).0 matches Ok(p) ==> property_value_name(p) == Some(core_property_names()[i]),
        core_value_spec::<E>(evs, st, i).0 matches Ok(p) ==> (property_value_text(p) matches Some(t)
            ==> text_close_spec(evs, st).0 == Ok::<Seq<char>, ParsingError>(t)),
{
    if i == 1 || i == 2 || i == 4 || i == 5 {
        match text_close_spec(evs, st) {
            (Ok(t), s) => {
                assert(core_value_spec::<E>(evs, st, i).0 matches Ok(p) && property_value_text(p) == Some(t));
            },
            _ => {},
        }
    }
}

/// A core property value read at an element is the property of that
/// element's name: its DAV name is the name of the current event.
pub proof fn law_property_value_is_its_element<E: Extension>(evs: Seq<XmlEvent>, st: RState)
    where E::Property: QRead, E::ResourceType: QRead
    ensures
        property_spec::<E>(evs, st).0 matches Ok(p) ==> (property_value_name(p) matches Some(x) ==> is_tag_spec(
            evs[st.pos],
            DAV_URN@,
            x,
        )),
{
    lemma_open_first_names(evs, st, DAV_URN@, core_property_names(), 0);
    match open_first_spec(evs, st, DAV_URN@, core_property_names(), 0) {
        (Ok(i), s1) => {
            law_core_value_is_named::<E>(evs, s1, i);
            assert(property_spec::<E>(evs, st) == core_value_spec::<E>(evs, s1, i));
        },
        _ => {},
    }
}

/// A core property name read at an element is the name of that element;
/// the names of the list are read at their own positions.
pub proof fn law_property_request_is_its_element<X: QRead>(evs: Seq<XmlEvent>, st: RState)
    ensures
        property_request_spec::<X>(evs, st).0 matches Ok(r) ==> (property_request_name(r) matches Some(x) ==> is_tag_spec(
            evs[st.pos],
            DAV_URN@,
            x,
        )),
        forall|i: int| 0 <= i < 10 ==> property_request_name(#[trigger] core_property_at::<X::V>(i)) == Some(
            core_property_names()[i],
        ),
{
    lemma_atoms_names(evs, st, DAV_URN@, core_property_names(), 0);
    let n = core_property_names();
    assert forall|i: int| 0 <= i < 10 implies property_request_name(#[trigger] core_property_at::<X::V>(i)) == Some(
        n[i],
    ) by {
        if i == 0 { assert(n[0] == "creationdate"@); }
        else if i == 1 { assert(n[1] == "displayname"@); }
        else if i == 2 { assert(n[2] == "getcontentlanguage"@); }
        else if i == 3 { assert(n[3] == "getcontentlength"@); }
        else if i == 4 { assert(n[4] == "getcontenttype"@); }
        else if i == 5 { assert(n[5] == "getetag"@); }
        else if i == 6 { assert(n[6] == "getlastmodified"@); }
        else if i == 7 { assert(n[7] == "lockdiscovery"@); }
        else if i == 8 { assert(n[8] == "resourcetype"@); }
        else { assert(n[9] == "supportedlock"@); }
    }
    match atoms_spec(evs, st, DAV_URN@, n, 0) {
        (Ok(i), s1) => {
            assert(property_request_name(core_property_at::<X::V>(i)) == Some(n[i]));
        },
        _ => {},
    }
}


/// The DAV element name of a core condition code; none for an extension's.
pub open spec fn violation_name<X>(v: ViolationView<X>) -> Option<Seq<char>> {
    match v {
        ViolationView::LockTokenMatchesRequestUri => Some("lock-token-matches-request-uri"@),
        ViolationView::LockTokenSubmitted(_) => Some("lock-token-submitted"@),
        ViolationView::NoConflictingLock(_) => Some("no-conflicting-lock"@),
        ViolationView::NoExternalEntities => Some("no-external-entities"@),
        ViolationView::PreservedLiveProperties => Some("preserved-live-properties"@),
        ViolationView::PropfindFiniteDepth => Some("propfind-finite-depth"@),
        ViolationView::CannotModifyProtectedProperty => Some("cannot-modify-protected-property"@),
        ViolationView::Extension(_) => None,
    }
}

/// Opening an element succeeds only at an event of that name.
proof fn lemma_open_names(evs: Seq<XmlEvent>, st: RState, ns: Seq<char>, key: Seq<char>)
    ensures
        open_spec(evs, st, ns, key).0 is Ok ==> is_tag_spec(evs[st.pos], ns, key),
{
}

/// A core condition code read at an element is the code of that element's
/// name.
pub proof fn law_violation_is_its_element<X: QRead>(evs: Seq<XmlEvent>, st: RState)
    ensures
        violation_spec::<X>(evs, st).0 matches Ok(v) ==> (violation_name(v) matches Some(x) ==> is_tag_spec(
            evs[st.pos],
            DAV_URN@,
            x,
        )),
{
    lemma_open_names(evs, st, DAV_URN@, "lock-token-matches-request-uri"@);
    lemma_open_names(evs, st, DAV_URN@, "lock-token-submitted"@);
    lemma_open_names(evs, st, DAV_URN@, "no-conflicting-lock"@);
    let n = plain_violation_names();
    lemma_atoms_names(evs, st, DAV_URN@, n, 0);
    match atoms_spec(evs, st, DAV_URN@, n, 0) {
        (Ok(i), _) => {
            if i == 0 { assert(n[0] == "no-external-entities"@); }
            else if i == 1 { assert(n[1] == "preserved-live-properties"@); }
            else if i == 2 { assert(n[2] == "propfind-finite-depth"@); }
            else { assert(n[3] == "cannot-modify-protected-property"@); }
        },
        _ => {},
    }
}


/// A PROPPATCH step read as a removal was read at a `remove` element; one
/// read as a setting where no `remove` element stands was read at a `set`
/// element.
pub proof fn law_update_item_is_its_element<E: Extension>(evs: Seq<XmlEvent>, st: RState)
    where E::PropertyRequest: QRead, E::Property: QRead, E::ResourceType: QRead
    ensures
        update_item_spec::<E>(evs, st).0 matches Ok(v) ==> match v {
            PropertyUpdateItemView::Remove(_) => is_tag_spec(evs[st.pos], DAV_URN@, "remove"@),
            PropertyUpdateItemView::SetValues(_) => !is_tag_spec(evs[st.pos], DAV_URN@, "remove"@) ==> is_tag_spec(
                evs[st.pos],
                DAV_URN@,
                "set"@,
            ),
        },
{
    lemma_open_names(evs, st, DAV_URN@, "remove"@);
    lemma_open_names(evs, st, DAV_URN@, "set"@);
}

/// A PROPFIND body read from an `allprop` element asks for all properties,
/// from a `propname` element for their names, and a list of names is read
/// only where neither comes first.
pub proof fn law_propfind_first_element<E: Extension>(evs: Seq<XmlEvent>, st: RState)
    where E::PropertyRequest: QRead
    ensures
        propfind_loop::<E>(evs, st).0 matches Ok(p) ==> (is_tag_spec(evs[st.pos], DAV_URN@, "allprop"@) ==> p is AllProp),
        propfind_loop::<E>(evs, st).0 matches Ok(p) ==> ((!is_tag_spec(evs[st.pos], DAV_URN@, "allprop"@)
            && is_tag_spec(evs[st.pos], DAV_URN@, "propname"@) && (evs[st.pos] is Start || evs[st.pos] is Empty)) ==> p is PropName),
{
}


/// A response read from its children keeps its error, description and
/// location; it is a status response, with all its references, exactly
/// when a status and no propstat were read, and a propstat response, for
/// its first reference with all its propstats, exactly when propstats and
/// no status were; a reference is always needed, and a status beside
/// propstats is refused.
pub proof fn law_response_shape<Q, P, R, X>(sl: ResponseSlots<Q, P, R, X>)
    ensures
        response_of(sl) matches Ok(r) ==> {
            &&& sl.href.len() > 0
            &&& r.error == sl.error
            &&& r.responsedescription == sl.responsedescription
            &&& r.location == sl.location
            &&& (r.status_or_propstat matches StatusOrPropstatView::Status(h, c) ==> h == sl.href && sl.status == Some(c)
                && sl.propstat.len() == 0)
            &&& (r.status_or_propstat matches StatusOrPropstatView::PropStat(h, ps) ==> h == sl.href[0] && ps == sl.propstat
                && sl.status is None)
        },
        sl.href.len() > 0 && (sl.status is Some) != (sl.propstat.len() > 0) ==> response_of(sl) is Ok,
        sl.status is Some && sl.propstat.len() > 0 ==> response_of(sl) == Err::<ResponseView<Q, P, R, X>, ParsingError>(
            ParsingError::InvalidValue,
        ),
{
}

} // verus!
