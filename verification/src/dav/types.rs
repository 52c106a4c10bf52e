//! Core WebDAV (RFC 4918) elements.
use vstd::prelude::*;

pub use super::extension::Extension;

verus! {

/// A calendar timestamp with the UTC offset it was written with.
#[derive(Debug, PartialEq, Eq, Clone, Copy)]
pub struct DateTimeOffset {
    /// Seconds since the UNIX epoch.
    pub unix_secs: i64,
    /// Nanoseconds past that second.
    pub nanos: u32,
    /// Offset from UTC, in seconds.
    pub offset_secs: i32,
}

/// 14.1 activelock: describes a lock on a resource.
#[derive(Debug, PartialEq, Clone)]
pub struct ActiveLock {
    pub lockscope: LockScope,
    pub locktype: LockType,
    pub depth: Depth,
    pub owner: Option<Owner>,
    pub timeout: Option<Timeout>,
    pub locktoken: Option<LockToken>,
    pub lockroot: LockRoot,
}

/// 14.3 collection: marks a resource as a collection.
#[derive(Debug, PartialEq, Clone)]
pub struct Collection {}

/// 14.4 depth: "0" | "1" | "infinity".
#[derive(Debug, PartialEq, Clone)]
pub enum Depth {
    Zero,
    One,
    Infinity,
}

/// 14.5 error: the precondition or postcondition codes of a failure.
#[derive(Debug, PartialEq, Clone)]
pub struct Error<E: Extension>(pub Vec<Violation<E>>);

/// The condition codes of RFC 4918, plus those of an extension.
#[derive(Debug, PartialEq, Clone)]
pub enum Violation<E: Extension> {
    LockTokenMatchesRequestUri,
    LockTokenSubmitted(Vec<Href>),
    NoConflictingLock(Vec<Href>),
    NoExternalEntities,
    PreservedLiveProperties,
    PropfindFiniteDepth,
    CannotModifyProtectedProperty,
    Extension(E::Error),
}

/// 14.6 exclusive: an exclusive lock.
#[derive(Debug, PartialEq, Clone)]
pub struct Exclusive {}

/// 14.7 href: a URI or a relative reference.
#[derive(Debug, PartialEq, Clone)]
pub struct Href(pub String);

/// 14.8 include: extra property names for an allprop PROPFIND.
#[derive(Debug, PartialEq, Clone)]
pub struct Include<E: Extension>(pub Vec<PropertyRequest<E>>);

/// 14.9 location: the Location header value of a response.
#[derive(Debug, PartialEq, Clone)]
pub struct Location(pub Href);

/// 14.10 lockentry: one kind of lock a resource supports.
#[derive(Debug, PartialEq, Clone)]
pub struct LockEntry {
    pub lockscope: LockScope,
    pub locktype: LockType,
}

/// 14.11 lockinfo: the lock a LOCK request asks for.
#[derive(Debug, PartialEq, Clone)]
pub struct LockInfo {
    pub lockscope: LockScope,
    pub locktype: LockType,
    pub owner: Option<Owner>,
}

/// 14.12 lockroot: the root URL of a lock.
#[derive(Debug, PartialEq, Clone)]
pub struct LockRoot(pub Href);

/// 14.13 lockscope: exclusive or shared.
#[derive(Debug, PartialEq, Clone)]
pub enum LockScope {
    Exclusive,
    Shared,
}

/// 14.14 locktoken: the token of a lock.
#[derive(Debug, PartialEq, Clone)]
pub struct LockToken(pub Href);

/// 14.15 locktype: only the write lock exists.
#[derive(Debug, PartialEq, Clone)]
pub enum LockType {
    Write,
}

/// 14.16 multistatus: several response messages.
#[derive(Debug, PartialEq, Clone)]
pub struct Multistatus<E: Extension> {
    pub responses: Vec<Response<E>>,
    pub responsedescription: Option<ResponseDescription>,
    /// An extension's own part of the response.
    pub extension: Option<E::Multistatus>,
}

/// 14.17 owner: client-supplied information on a lock's creator.
#[derive(Debug, PartialEq, Clone)]
pub enum Owner {
    Txt(String),
    Href(Href),
    Unknown,
}

/// 14.18 prop, holding property names.
#[derive(Debug, PartialEq, Clone)]
pub struct PropName<E: Extension>(pub Vec<PropertyRequest<E>>);

/// 14.18 prop, holding property values.
#[derive(Debug, PartialEq, Clone)]
pub struct PropValue<E: Extension>(pub Vec<Property<E>>);

/// 14.18 prop, holding names or values.
#[derive(Debug, PartialEq, Clone)]
pub struct AnyProp<E: Extension>(pub Vec<AnyProperty<E>>);

/// 14.19 propertyupdate: a PROPPATCH body.
#[derive(Debug, PartialEq, Clone)]
pub struct PropertyUpdate<E: Extension>(pub Vec<PropertyUpdateItem<E>>);

/// One remove or set step of a PROPPATCH.
#[derive(Debug, PartialEq, Clone)]
pub enum PropertyUpdateItem<E: Extension> {
    Remove(Remove<E>),
    SetValues(PropSet<E>),
}

/// 14.20 propfind: propname | (allprop, include?) | prop.
#[derive(Debug, PartialEq, Clone)]
pub enum PropFind<E: Extension> {
    PropName,
    AllProp(Option<Include<E>>),
    Prop(PropName<E>),
}

/// 14.22 propstat: properties grouped with their status.
#[derive(Debug, PartialEq, Clone)]
pub struct PropStat<E: Extension> {
    pub prop: AnyProp<E>,
    pub status: Status,
    pub error: Option<Error<E>>,
    pub responsedescription: Option<ResponseDescription>,
}

/// 14.23 remove: properties to remove.
#[derive(Debug, PartialEq, Clone)]
pub struct Remove<E: Extension>(pub PropName<E>);

/// The two shapes of a response element.
#[derive(Debug, PartialEq, Clone)]
pub enum StatusOrPropstat<E: Extension> {
    /// One status for several hrefs.
    Status(Vec<Href>, Status),
    /// A single href with several property groups.
    PropStat(Href, Vec<PropStat<E>>),
}

/// 14.24 response: the outcome for one or more resources.
#[derive(Debug, PartialEq, Clone)]
pub struct Response<E: Extension> {
    pub status_or_propstat: StatusOrPropstat<E>,
    pub error: Option<Error<E>>,
    pub responsedescription: Option<ResponseDescription>,
    pub location: Option<Location>,
}

/// 14.25 responsedescription: a message for the user.
#[derive(Debug, PartialEq, Clone)]
pub struct ResponseDescription(pub String);

/// 14.26 set: properties to set.
#[derive(Debug, PartialEq, Clone)]
pub struct PropSet<E: Extension>(pub PropValue<E>);

/// 14.27 shared: a shared lock.
#[derive(Debug, PartialEq, Clone)]
pub struct Shared {}

/// 14.28 status: an HTTP status code.
#[derive(Debug, PartialEq, Clone)]
pub struct Status(pub u16);

/// 14.29 timeout: seconds or infinite.
#[derive(Debug, PartialEq, Clone)]
pub enum Timeout {
    Seconds(u32),
    Infinite,
}

/// A property name or a property value.
#[derive(Debug, PartialEq, Clone)]
pub enum AnyProperty<E: Extension> {
    Request(PropertyRequest<E>),
    Value(Property<E>),
}

/// The names of the DAV properties (section 15).
#[derive(Debug, PartialEq, Clone)]
pub enum PropertyRequest<E: Extension> {
    CreationDate,
    DisplayName,
    GetContentLanguage,
    GetContentLength,
    GetContentType,
    GetEtag,
    GetLastModified,
    LockDiscovery,
    ResourceType,
    SupportedLock,
    Extension(E::PropertyRequest),
}

/// The DAV properties with their values (section 15).
#[derive(Debug, PartialEq, Clone)]
pub enum Property<E: Extension> {
    CreationDate(DateTimeOffset),
    DisplayName(String),
    GetContentLanguage(String),
    GetContentLength(u64),
    GetContentType(String),
    GetEtag(String),
    GetLastModified(DateTimeOffset),
    LockDiscovery(Vec<ActiveLock>),
    ResourceType(Vec<ResourceType<E>>),
    SupportedLock(Vec<LockEntry>),
    Extension(E::Property),
}

/// 15.9 resourcetype: the nature of a resource.
#[derive(Debug, PartialEq, Clone)]
pub enum ResourceType<E: Extension> {
    Collection,
    Extension(E::ResourceType),
}

impl View for Href {
    type V = Seq<char>;

    /// The reference's characters.
    open spec fn view(&self) -> Seq<char> {
        self.0@
    }
}

impl View for LockScope {
    type V = LockScope;

    open spec fn view(&self) -> LockScope {
        *self
    }
}

impl View for LockType {
    type V = LockType;

    open spec fn view(&self) -> LockType {
        *self
    }
}

impl View for Depth {
    type V = Depth;

    open spec fn view(&self) -> Depth {
        *self
    }
}

impl View for Timeout {
    type V = Timeout;

    open spec fn view(&self) -> Timeout {
        *self
    }
}

impl View for Status {
    type V = u16;

    /// The status code.
    open spec fn view(&self) -> u16 {
        self.0
    }
}

impl View for LockEntry {
    type V = LockEntry;

    open spec fn view(&self) -> LockEntry {
        *self
    }
}

impl View for LockToken {
    type V = Seq<char>;

    /// The token's reference.
    open spec fn view(&self) -> Seq<char> {
        self.0.0@
    }
}

impl View for LockRoot {
    type V = Seq<char>;

    /// The root's reference.
    open spec fn view(&self) -> Seq<char> {
        self.0.0@
    }
}

impl View for Location {
    type V = Seq<char>;

    /// The location's reference.
    open spec fn view(&self) -> Seq<char> {
        self.0.0@
    }
}

impl View for ResponseDescription {
    type V = Seq<char>;

    /// The description's text.
    open spec fn view(&self) -> Seq<char> {
        self.0@
    }
}

/// A lock owner by the characters it holds.
pub enum OwnerView {
    Txt(Seq<char>),
    Href(Seq<char>),
    Unknown,
}

impl View for Owner {
    type V = OwnerView;

    open spec fn view(&self) -> OwnerView {
        match self {
            Owner::Txt(t) => OwnerView::Txt(t@),
            Owner::Href(h) => OwnerView::Href(h.0@),
            Owner::Unknown => OwnerView::Unknown,
        }
    }
}

/// The view of an optional owner.
pub open spec fn owner_opt(o: Option<Owner>) -> Option<OwnerView> {
    match o {
        Some(x) => Some(x@),
        None => None,
    }
}

/// A requested lock by what it holds.
pub struct LockInfoView {
    pub lockscope: LockScope,
    pub locktype: LockType,
    pub owner: Option<OwnerView>,
}

impl View for LockInfo {
    type V = LockInfoView;

    open spec fn view(&self) -> LockInfoView {
        LockInfoView { lockscope: self.lockscope, locktype: self.locktype, owner: owner_opt(self.owner) }
    }
}

/// An active lock by what it holds.
pub struct ActiveLockView {
    pub lockscope: LockScope,
    pub locktype: LockType,
    pub depth: Depth,
    pub owner: Option<OwnerView>,
    pub timeout: Option<Timeout>,
    pub locktoken: Option<Seq<char>>,
    pub lockroot: Seq<char>,
}

impl View for ActiveLock {
    type V = ActiveLockView;

    open spec fn view(&self) -> ActiveLockView {
        ActiveLockView {
            lockscope: self.lockscope,
            locktype: self.locktype,
            depth: self.depth,
            owner: owner_opt(self.owner),
            timeout: self.timeout,
            locktoken: match self.locktoken {
                Some(t) => Some(t.0.0@),
                None => None,
            },
            lockroot: self.lockroot.0.0@,
        }
    }
}

} // verus!
