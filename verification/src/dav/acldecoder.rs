//! Reading the ACL elements (RFC 3744) and the current user principal
//! (RFC 5397).
use vstd::prelude::*;

use super::acltypes::{Privilege, PrivilegeSet, Property, PropertyRequest, PropertyView, ResourceType, User, Violation};
use super::error::ParsingError;
use super::types::Href;
use super::xml::{
    atoms_spec, close_spec, find_spec, lemma_skip, keys_view, maybe_push_spec, open_start_spec, skip_spec, views, QRead,
    RState, Reader, XmlEvent, DAV_URN,
};

verus! {

/// The names of the privileges, in the order they are tried.
pub open spec fn privilege_names() -> Seq<Seq<char>> {
    seq![
        "read"@,
        "write"@,
        "write-properties"@,
        "write-content"@,
        "unlock"@,
        "read-acl"@,
        "read-current-user-privilege-set"@,
        "write-acl"@,
        "bind"@,
        "unbind"@,
        "all"@,
    ]
}

/// The privilege at a position of `privilege_names`.
pub open spec fn privilege_at(i: int) -> Privilege {
    if i == 0 {
        Privilege::Read
    } else if i == 1 {
        Privilege::Write
    } else if i == 2 {
        Privilege::WriteProperties
    } else if i == 3 {
        Privilege::WriteContent
    } else if i == 4 {
        Privilege::Unlock
    } else if i == 5 {
        Privilege::ReadAcl
    } else if i == 6 {
        Privilege::ReadCurrentUserPrivilegeSet
    } else if i == 7 {
        Privilege::WriteAcl
    } else if i == 8 {
        Privilege::Bind
    } else if i == 9 {
        Privilege::Unbind
    } else {
        Privilege::All
    }
}

/// A privilege: the first of the privilege elements that is the current
/// one.
pub open spec fn privilege_spec(evs: Seq<XmlEvent>, st: RState) -> (Result<Privilege, ParsingError>, RState) {
    match atoms_spec(evs, st, DAV_URN@, privilege_names(), 0) {
        (Ok(i), s) => (Ok(privilege_at(i)), s),
        (Err(e), s) => (Err(e), s),
    }
}

impl QRead for Privilege {
    open spec fn qread_spec(evs: Seq<XmlEvent>, st: RState) -> (Result<Privilege, ParsingError>, RState) {
        privilege_spec(evs, st)
    }

    fn qread(xml: &mut Reader) -> (r: Result<Self, ParsingError>) {
        let keys: Vec<&str> = vec![
            "read",
            "write",
            "write-properties",
            "write-content",
            "unlock",
            "read-acl",
            "read-current-user-privilege-set",
            "write-acl",
            "bind",
            "unbind",
            "all",
        ];
        assert(keys_view(keys@) =~= privilege_names());
        let i = xml.read_atom(DAV_URN, &keys)?;
        Ok(
            if i == 0 {
                Self::Read
            } else if i == 1 {
                Self::Write
            } else if i == 2 {
                Self::WriteProperties
            } else if i == 3 {
                Self::WriteContent
            } else if i == 4 {
                Self::Unlock
            } else if i == 5 {
                Self::ReadAcl
            } else if i == 6 {
                Self::ReadCurrentUserPrivilegeSet
            } else if i == 7 {
                Self::WriteAcl
            } else if i == 8 {
                Self::Bind
            } else if i == 9 {
                Self::Unbind
            } else {
                Self::All
            },
        )
    }
}

/// The privileges among the children of a privilege element, from the
/// current event on, after `acc`; nodes that are no privilege are skipped.
pub open spec fn privileges_loop(evs: Seq<XmlEvent>, st: RState, acc: Seq<Privilege>) -> (
    Result<Seq<Privilege>, ParsingError>,
    RState,
)
    decreases evs.len() - st.pos,
{
    match maybe_push_spec::<Privilege>(evs, st, acc, false) {
        (Err(e), s, _, _) => (Err(e), s),
        (Ok(_), s1, acc1, dirty) => if dirty {
            if st.pos < s1.pos <= evs.len() {
                privileges_loop(evs, s1, acc1)
            } else {
                (Err(ParsingError::Eof), s1)
            }
        } else if 0 <= s1.pos < evs.len() {
            if evs[s1.pos] is End {
                (Ok(acc1), s1)
            } else {
                match skip_spec(evs, s1) {
                    (Err(e), s2) => (Err(e), s2),
                    (Ok(_), s2) => if st.pos < s2.pos <= evs.len() {
                        privileges_loop(evs, s2, acc1)
                    } else {
                        (Err(ParsingError::Eof), s2)
                    },
                }
            }
        } else {
            (Err(ParsingError::Eof), s1)
        },
    }
}

/// `<D:privilege>`: the privileges it holds.
pub open spec fn privilege_set_spec(evs: Seq<XmlEvent>, st: RState) -> (Result<Seq<Privilege>, ParsingError>, RState) {
    match open_start_spec(evs, st, DAV_URN@, "privilege"@) {
        (Err(e), s) => (Err(e), s),
        (Ok(_), s1) => match privileges_loop(evs, s1, Seq::empty()) {
            (Err(e), s) => (Err(e), s),
            (Ok(p), s2) => match close_spec(evs, s2) {
                (Err(e), s) => (Err(e), s),
                (Ok(_), s3) => (Ok(p), s3),
            },
        },
    }
}

impl QRead for PrivilegeSet {
    open spec fn qread_spec(evs: Seq<XmlEvent>, st: RState) -> (Result<Seq<Privilege>, ParsingError>, RState) {
        privilege_set_spec(evs, st)
    }

    fn qread(xml: &mut Reader) -> (r: Result<Self, ParsingError>) {
        if !xml.maybe_open_start(DAV_URN, "privilege")? {
            return Err(ParsingError::Recoverable);
        }
        let ghost evs = xml.evs();
        let ghost s1 = xml.st();
        let ghost start = old(xml).st();
        let mut privileges: Vec<Privilege> = Vec::new();
        proof {
            assert(views(privileges@) =~= Seq::<Privilege>::empty());
        }
        loop
            invariant_except_break
                privileges_loop(evs, xml.st(), views(privileges@)) == privileges_loop(evs, s1, Seq::empty()),
            invariant
                xml.wf(),
                xml.evs() == evs,
                evs == old(xml).evs(),
                start == old(xml).st(),
                s1.pos > start.pos,
                xml.st().pos >= s1.pos,
                open_start_spec(evs, start, DAV_URN@, "privilege"@) == (Ok::<int, ParsingError>(start.pos), s1),
            ensures
                privileges_loop(evs, s1, Seq::empty()) == (Ok::<Seq<Privilege>, ParsingError>(views(privileges@)), xml.st()),
            decreases evs.len() - xml.st().pos,
        {
            let ghost here = xml.st();
            let ghost acc = views(privileges@);
            let mut dirty = false;
            xml.maybe_push(&mut privileges, &mut dirty)?;
            if !dirty {
                if let XmlEvent::End(_) = xml.peek() {
                    break;
                }
                proof {
                    lemma_skip(evs, xml.st());
                }
                xml.skip()?;
            }
            assert(here.pos < xml.st().pos);
        }
        proof {
            assert(views(privileges@) =~= privileges@);
        }
        xml.close()?;
        Ok(PrivilegeSet(privileges))
    }
}

/// The names of the ACL properties.
pub open spec fn acl_property_names() -> Seq<Seq<char>> {
    seq!["owner"@, "current-user-principal"@, "current-user-privilege-set"@]
}

/// An ACL property name.
pub open spec fn acl_property_request_spec(evs: Seq<XmlEvent>, st: RState) -> (
    Result<PropertyRequest, ParsingError>,
    RState,
) {
    match atoms_spec(evs, st, DAV_URN@, acl_property_names(), 0) {
        (Ok(i), s) => (
            Ok(
                if i == 0 {
                    PropertyRequest::Owner
                } else if i == 1 {
                    PropertyRequest::CurrentUserPrincipal
                } else {
                    PropertyRequest::CurrentUserPrivilegeSet
                },
            ),
            s,
        ),
        (Err(e), s) => (Err(e), s),
    }
}

impl QRead for PropertyRequest {
    open spec fn qread_spec(evs: Seq<XmlEvent>, st: RState) -> (Result<PropertyRequest, ParsingError>, RState) {
        acl_property_request_spec(evs, st)
    }

    fn qread(xml: &mut Reader) -> (r: Result<Self, ParsingError>) {
        let keys: Vec<&str> = vec!["owner", "current-user-principal", "current-user-privilege-set"];
        assert(keys_view(keys@) =~= acl_property_names());
        let i = xml.read_atom(DAV_URN, &keys)?;
        Ok(
            if i == 0 {
                Self::Owner
            } else if i == 1 {
                Self::CurrentUserPrincipal
            } else {
                Self::CurrentUserPrivilegeSet
            },
        )
    }
}

/// The principal resource type.
pub open spec fn acl_resource_type_spec(evs: Seq<XmlEvent>, st: RState) -> (Result<ResourceType, ParsingError>, RState) {
    match atoms_spec(evs, st, DAV_URN@, seq!["principal"@], 0) {
        (Ok(_), s) => (Ok(ResourceType::Principal), s),
        (Err(e), s) => (Err(e), s),
    }
}

impl QRead for ResourceType {
    open spec fn qread_spec(evs: Seq<XmlEvent>, st: RState) -> (Result<ResourceType, ParsingError>, RState) {
        acl_resource_type_spec(evs, st)
    }

    fn qread(xml: &mut Reader) -> (r: Result<Self, ParsingError>) {
        let keys: Vec<&str> = vec!["principal"];
        assert(keys_view(keys@) =~= seq!["principal"@]);
        xml.read_atom(DAV_URN, &keys)?;
        Ok(Self::Principal)
    }
}

/// The ACL condition code.
pub open spec fn acl_violation_spec(evs: Seq<XmlEvent>, st: RState) -> (Result<Violation, ParsingError>, RState) {
    match atoms_spec(evs, st, DAV_URN@, seq!["number-of-matches-within-limits"@], 0) {
        (Ok(_), s) => (Ok(Violation::NumberOfMatchesWithinLimits), s),
        (Err(e), s) => (Err(e), s),
    }
}

impl QRead for Violation {
    open spec fn qread_spec(evs: Seq<XmlEvent>, st: RState) -> (Result<Violation, ParsingError>, RState) {
        acl_violation_spec(evs, st)
    }

    fn qread(xml: &mut Reader) -> (r: Result<Self, ParsingError>) {
        let keys: Vec<&str> = vec!["number-of-matches-within-limits"];
        assert(keys_view(keys@) =~= seq!["number-of-matches-within-limits"@]);
        xml.read_atom(DAV_URN, &keys)?;
        Ok(Self::NumberOfMatchesWithinLimits)
    }
}

/// A principal: `<D:unauthenticated/>`, else a reference.
pub open spec fn user_spec(evs: Seq<XmlEvent>, st: RState) -> (Result<Option<Seq<char>>, ParsingError>, RState) {
    match atoms_spec(evs, st, DAV_URN@, seq!["unauthenticated"@], 0) {
        (Ok(_), s) => (Ok(None), s),
        (Err(ParsingError::Recoverable), s) => match <Href as QRead>::qread_spec(evs, s) {
            (Ok(h), s2) => (Ok(Some(h)), s2),
            (Err(e), s2) => (Err(e), s2),
        },
        (Err(e), s) => (Err(e), s),
    }
}

impl QRead for User {
    open spec fn qread_spec(evs: Seq<XmlEvent>, st: RState) -> (Result<Option<Seq<char>>, ParsingError>, RState) {
        user_spec(evs, st)
    }

    fn qread(xml: &mut Reader) -> (r: Result<Self, ParsingError>) {
        let keys: Vec<&str> = vec!["unauthenticated"];
        assert(keys_view(keys@) =~= seq!["unauthenticated"@]);
        match xml.read_atom(DAV_URN, &keys) {
            Ok(_) => return Ok(Self::Unauthenticated),
            Err(ParsingError::Recoverable) => {},
            Err(e) => return Err(e),
        }
        match Href::qread(xml) {
            Ok(h) => Ok(Self::Authenticated(h)),
            Err(e) => Err(e),
        }
    }
}

/// After an element is opened: the first value of type `N` among its
/// children, then the element closed.
pub open spec fn find_close_spec<N: QRead>(evs: Seq<XmlEvent>, st: RState) -> (Result<N::V, ParsingError>, RState) {
    match find_spec::<N>(evs, st) {
        (Err(e), s) => (Err(e), s),
        (Ok(v), s2) => match close_spec(evs, s2) {
            (Err(e), s) => (Err(e), s),
            (Ok(_), s3) => (Ok(v), s3),
        },
    }
}

/// An ACL property value: the owner, the current user principal or the
/// current user's privileges, each written with an opening tag.
pub open spec fn acl_property_spec(evs: Seq<XmlEvent>, st: RState) -> (Result<PropertyView, ParsingError>, RState) {
    match open_start_spec(evs, st, DAV_URN@, "owner"@) {
        (Ok(_), s1) => match find_close_spec::<Href>(evs, s1) {
            (Ok(h), s) => (Ok(PropertyView::Owner(h)), s),
            (Err(e), s) => (Err(e), s),
        },
        (Err(ParsingError::Recoverable), _) => match open_start_spec(evs, st, DAV_URN@, "current-user-principal"@) {
            (Ok(_), s1) => match find_close_spec::<User>(evs, s1) {
                (Ok(u), s) => (Ok(PropertyView::CurrentUserPrincipal(u)), s),
                (Err(e), s) => (Err(e), s),
            },
            (Err(ParsingError::Recoverable), _) => match open_start_spec(
                evs,
                st,
                DAV_URN@,
                "current-user-privilege-set"@,
            ) {
                (Ok(_), s1) => match find_close_spec::<PrivilegeSet>(evs, s1) {
                    (Ok(p), s) => (Ok(PropertyView::CurrentUserPrivilegeSet(p)), s),
                    (Err(e), s) => (Err(e), s),
                },
                (Err(e), s) => (Err(e), s),
            },
            (Err(e), s) => (Err(e), s),
        },
        (Err(e), s) => (Err(e), s),
    }
}

/// Reads the first value of type `N` among the children of the element
/// just opened, then closes it.
pub(crate) fn find_close<N: QRead>(xml: &mut Reader) -> (r: Result<N, ParsingError>)
    requires
        old(xml).wf(),
    ensures
        final(xml).wf(),
        final(xml).evs() == old(xml).evs(),
        match r {
            Ok(v) => find_close_spec::<N>(old(xml).evs(), old(xml).st()).0 == Ok::<N::V, ParsingError>(v@),
            Err(e) => find_close_spec::<N>(old(xml).evs(), old(xml).st()).0 == Err::<N::V, ParsingError>(e),
        },
        final(xml).st() == find_close_spec::<N>(old(xml).evs(), old(xml).st()).1,
        final(xml).st().pos >= old(xml).st().pos,
        r is Ok ==> final(xml).st().pos > old(xml).st().pos,
{
    let v = xml.find()?;
    xml.close()?;
    Ok(v)
}

impl QRead for Property {
    open spec fn qread_spec(evs: Seq<XmlEvent>, st: RState) -> (Result<PropertyView, ParsingError>, RState) {
        acl_property_spec(evs, st)
    }

    fn qread(xml: &mut Reader) -> (r: Result<Self, ParsingError>) {
        if xml.maybe_open_start(DAV_URN, "owner")? {
            let href = find_close::<Href>(xml)?;
            return Ok(Self::Owner(href));
        }
        if xml.maybe_open_start(DAV_URN, "current-user-principal")? {
            let user = find_close::<User>(xml)?;
            return Ok(Self::CurrentUserPrincipal(user));
        }
        if xml.maybe_open_start(DAV_URN, "current-user-privilege-set")? {
            let privileges = find_close::<PrivilegeSet>(xml)?;
            return Ok(Self::CurrentUserPrivilegeSet(privileges));
        }
        Err(ParsingError::Recoverable)
    }
}

} // verus!
