//! Writing the ACL elements (RFC 3744) and the current user principal
//! (RFC 5397).
use vstd::prelude::*;

use super::acltypes::{Privilege, PrivilegeSet, Property, PropertyRequest, ResourceType, User};
use super::xml::{QWrite, WEvent, WView, Writer};

verus! {

/// An empty element `D:name` with the declarations `ns`.
pub open spec fn dav_atom(name: Seq<char>, ns: Seq<(Seq<char>, Seq<char>)>) -> Seq<WView> {
    seq![WView::Empty(seq!['D', ':'] + name, ns)]
}

/// The element name of a privilege.
pub open spec fn privilege_name(p: Privilege) -> Seq<char> {
    match p {
        Privilege::Read => "read"@,
        Privilege::Write => "write"@,
        Privilege::WriteProperties => "write-properties"@,
        Privilege::WriteContent => "write-content"@,
        Privilege::Unlock => "unlock"@,
        Privilege::ReadAcl => "read-acl"@,
        Privilege::ReadCurrentUserPrivilegeSet => "read-current-user-privilege-set"@,
        Privilege::WriteAcl => "write-acl"@,
        Privilege::Bind => "bind"@,
        Privilege::Unbind => "unbind"@,
        Privilege::All => "all"@,
    }
}

impl QWrite for Privilege {
    open spec fn qwrite_spec(&self, ns: Seq<(Seq<char>, Seq<char>)>) -> Seq<WView> {
        dav_atom(privilege_name(*self), ns)
    }

    fn qwrite(&self, xml: &mut Writer) {
        let name = match self {
            Self::Read => "read",
            Self::Write => "write",
            Self::WriteProperties => "write-properties",
            Self::WriteContent => "write-content",
            Self::Unlock => "unlock",
            Self::ReadAcl => "read-acl",
            Self::ReadCurrentUserPrivilegeSet => "read-current-user-privilege-set",
            Self::WriteAcl => "write-acl",
            Self::Bind => "bind",
            Self::Unbind => "unbind",
            Self::All => "all",
        };
        let ghost o = xml.out();
        xml.write_dav_atom(name);
        assert(xml.out() =~= o + dav_atom(privilege_name(*self), old(xml).ns()));
    }
}

/// The empty elements of a list of privileges, written after the first
/// element, with no declarations.
pub open spec fn privileges_written(ps: Seq<Privilege>) -> Seq<WView>
    decreases ps.len(),
{
    if ps.len() == 0 {
        Seq::empty()
    } else {
        privileges_written(ps.drop_last()) + dav_atom(privilege_name(ps.last()), Seq::empty())
    }
}

impl QWrite for PrivilegeSet {
    open spec fn qwrite_spec(&self, ns: Seq<(Seq<char>, Seq<char>)>) -> Seq<WView> {
        seq![WView::Start(seq!['D', ':'] + "privilege"@, ns)] + privileges_written(self.0@) + seq![
            WView::End(seq!['D', ':'] + "privilege"@),
        ]
    }

    fn qwrite(&self, xml: &mut Writer) {
        let ghost o = xml.out();
        let ghost ns = xml.ns();
        let start = xml.create_dav_element("privilege");
        let end = start.to_end();
        xml.write(WEvent::Start(start));
        let ghost head = xml.out();
        let mut i: usize = 0;
        while i < self.0.len()
            invariant
                i <= self.0@.len(),
                xml.ns() == Seq::<(Seq<char>, Seq<char>)>::empty(),
                xml.out() == head + privileges_written(self.0@.take(i as int)),
            decreases self.0@.len() - i,
        {
            self.0[i].qwrite(xml);
            proof {
                assert(self.0@.take(i + 1).drop_last() == self.0@.take(i as int));
                assert(self.0@.take(i + 1).last() == self.0@[i as int]);
            }
            i = i + 1;
        }
        proof {
            assert(self.0@.take(self.0@.len() as int) == self.0@);
        }
        xml.write(end);
        assert(xml.out() =~= o + self.qwrite_spec(ns));
    }
}

/// The element name of an ACL property.
pub open spec fn acl_property_name(p: PropertyRequest) -> Seq<char> {
    match p {
        PropertyRequest::Owner => "owner"@,
        PropertyRequest::CurrentUserPrincipal => "current-user-principal"@,
        PropertyRequest::CurrentUserPrivilegeSet => "current-user-privilege-set"@,
    }
}

impl QWrite for PropertyRequest {
    open spec fn qwrite_spec(&self, ns: Seq<(Seq<char>, Seq<char>)>) -> Seq<WView> {
        dav_atom(acl_property_name(*self), ns)
    }

    fn qwrite(&self, xml: &mut Writer) {
        let name = match self {
            Self::Owner => "owner",
            Self::CurrentUserPrincipal => "current-user-principal",
            Self::CurrentUserPrivilegeSet => "current-user-privilege-set",
        };
        let ghost o = xml.out();
        xml.write_dav_atom(name);
        assert(xml.out() =~= o + dav_atom(acl_property_name(*self), old(xml).ns()));
    }
}

impl QWrite for ResourceType {
    open spec fn qwrite_spec(&self, ns: Seq<(Seq<char>, Seq<char>)>) -> Seq<WView> {
        dav_atom("principal"@, ns)
    }

    fn qwrite(&self, xml: &mut Writer) {
        let ghost o = xml.out();
        xml.write_dav_atom("principal");
        assert(xml.out() =~= o + dav_atom("principal"@, old(xml).ns()));
    }
}

impl QWrite for User {
    open spec fn qwrite_spec(&self, ns: Seq<(Seq<char>, Seq<char>)>) -> Seq<WView> {
        match self {
            User::Unauthenticated => dav_atom("unauthenticated"@, ns),
            User::Authenticated(h) => h.qwrite_spec(ns),
        }
    }

    fn qwrite(&self, xml: &mut Writer) {
        match self {
            Self::Unauthenticated => {
                let ghost o = xml.out();
                xml.write_dav_atom("unauthenticated");
                assert(xml.out() =~= o + dav_atom("unauthenticated"@, old(xml).ns()));
            },
            Self::Authenticated(h) => h.qwrite(xml),
        }
    }
}

/// An element `D:name` around what `inner` writes.
pub open spec fn wrapping(name: Seq<char>, ns: Seq<(Seq<char>, Seq<char>)>, inner: Seq<WView>) -> Seq<WView> {
    seq![WView::Start(seq!['D', ':'] + name, ns)] + inner + seq![WView::End(seq!['D', ':'] + name)]
}

/// Writes the element `D:name` around a value.
fn write_wrapped<T: QWrite>(xml: &mut Writer, name: &str, v: &T)
    ensures
        final(xml).out() == old(xml).out() + wrapping(name@, old(xml).ns(), v.qwrite_spec(Seq::empty())),
        final(xml).ns() == Seq::<(Seq<char>, Seq<char>)>::empty(),
{
    let ghost o = xml.out();
    let ghost ns = xml.ns();
    let start = xml.create_dav_element(name);
    let end = start.to_end();
    xml.write(WEvent::Start(start));
    v.qwrite(xml);
    xml.write(end);
    assert(xml.out() =~= o + wrapping(name@, ns, v.qwrite_spec(Seq::empty())));
}

impl QWrite for Property {
    open spec fn qwrite_spec(&self, ns: Seq<(Seq<char>, Seq<char>)>) -> Seq<WView> {
        match self {
            Property::Owner(h) => wrapping("owner"@, ns, h.qwrite_spec(Seq::empty())),
            Property::CurrentUserPrincipal(u) => wrapping("current-user-principal"@, ns, u.qwrite_spec(Seq::empty())),
            Property::CurrentUserPrivilegeSet(p) => wrapping(
                "current-user-privilege-set"@,
                ns,
                p.qwrite_spec(Seq::empty()),
            ),
        }
    }

    fn qwrite(&self, xml: &mut Writer) {
        match self {
            Self::Owner(h) => write_wrapped(xml, "owner", h),
            Self::CurrentUserPrincipal(u) => write_wrapped(xml, "current-user-principal", u),
            Self::CurrentUserPrivilegeSet(p) => write_wrapped(xml, "current-user-privilege-set", p),
        }
    }
}

} // verus!
