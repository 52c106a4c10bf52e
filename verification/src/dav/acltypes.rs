//! WebDAV ACL (RFC 3744) and the current-user-principal extension (RFC 5397).
use vstd::prelude::*;

use super::types as dav;

verus! {

/// The ACL property names.
#[derive(Debug, PartialEq, Clone)]
pub enum PropertyRequest {
    Owner,
    CurrentUserPrincipal,
    CurrentUserPrivilegeSet,
}

/// The ACL property values.
#[derive(Debug, PartialEq, Clone)]
pub enum Property {
    Owner(dav::Href),
    CurrentUserPrincipal(User),
    CurrentUserPrivilegeSet(PrivilegeSet),
}

/// The principal resource type.
#[derive(Debug, PartialEq, Clone)]
pub enum ResourceType {
    Principal,
}

/// ACL condition codes.
#[derive(Debug, PartialEq, Clone)]
pub enum Violation {
    NumberOfMatchesWithinLimits,
}

/// The privileges of RFC 3744, section 3.
#[derive(Debug, PartialEq, Clone)]
pub enum Privilege {
    Read,
    Write,
    WriteProperties,
    WriteContent,
    Unlock,
    ReadAcl,
    ReadCurrentUserPrivilegeSet,
    WriteAcl,
    Bind,
    Unbind,
    All,
}

/// A set of privileges.
#[derive(Debug, PartialEq, Clone)]
pub struct PrivilegeSet(pub Vec<Privilege>);

/// The current user principal.
#[derive(Debug, PartialEq, Clone)]
pub enum User {
    Unauthenticated,
    Authenticated(dav::Href),
}

impl View for PropertyRequest {
    type V = PropertyRequest;

    open spec fn view(&self) -> PropertyRequest {
        *self
    }
}

impl View for ResourceType {
    type V = ResourceType;

    open spec fn view(&self) -> ResourceType {
        *self
    }
}

impl View for Violation {
    type V = Violation;

    open spec fn view(&self) -> Violation {
        *self
    }
}

impl View for Privilege {
    type V = Privilege;

    open spec fn view(&self) -> Privilege {
        *self
    }
}

impl View for PrivilegeSet {
    type V = Seq<Privilege>;

    /// The privileges, in order.
    open spec fn view(&self) -> Seq<Privilege> {
        self.0@
    }
}

impl View for User {
    /// The principal's reference; none when unauthenticated.
    type V = Option<Seq<char>>;

    open spec fn view(&self) -> Option<Seq<char>> {
        match self {
            User::Unauthenticated => None,
            User::Authenticated(h) => Some(h.0@),
        }
    }
}

/// An ACL property value by the characters it holds.
pub enum PropertyView {
    Owner(Seq<char>),
    CurrentUserPrincipal(Option<Seq<char>>),
    CurrentUserPrivilegeSet(Seq<Privilege>),
}

impl View for Property {
    type V = PropertyView;

    open spec fn view(&self) -> PropertyView {
        match self {
            Property::Owner(h) => PropertyView::Owner(h.0@),
            Property::CurrentUserPrincipal(u) => PropertyView::CurrentUserPrincipal(u@),
            Property::CurrentUserPrivilegeSet(p) => PropertyView::CurrentUserPrivilegeSet(p@),
        }
    }
}

} // verus!
