//! Reading the core WebDAV elements (RFC 4918) that the extensions share.
use vstd::prelude::*;

use super::error::ParsingError;
use super::types::{
    ActiveLock, ActiveLockView, Depth, Href, LockEntry, LockInfo, LockInfoView, LockRoot, LockScope, LockToken,
    LockType, Location, Owner, OwnerView, ResponseDescription, Status, Timeout,
};
use super::xml::{
    atoms_spec, close_spec, find_spec, keys_view, lemma_skip, maybe_read_spec, open_spec, opt_view, skip_spec,
    tag_string_spec, QRead, RState, Reader, XmlEvent, DAV_URN,
};
use crate::text::{chars_of, chars_to_string, parse_u64, str_eq, u64_of};

verus! {

/// `<D:href>`: a reference.
pub open spec fn href_spec(evs: Seq<XmlEvent>, st: RState) -> (Result<Seq<char>, ParsingError>, RState) {
    match open_spec(evs, st, DAV_URN@, "href"@) {
        (Err(e), s) => (Err(e), s),
        (Ok(_), s1) => match tag_string_spec(evs, s1) {
            (Err(e), s) => (Err(e), s),
            (Ok(t), s2) => match close_spec(evs, s2) {
                (Err(e), s) => (Err(e), s),
                (Ok(_), s3) => (Ok(t), s3),
            },
        },
    }
}

impl QRead for Href {
    open spec fn qread_spec(evs: Seq<XmlEvent>, st: RState) -> (Result<Seq<char>, ParsingError>, RState) {
        href_spec(evs, st)
    }

    fn qread(xml: &mut Reader) -> (r: Result<Self, ParsingError>) {
        xml.open(DAV_URN, "href")?;
        let url = xml.tag_string()?;
        xml.close()?;
        Ok(Href(url))
    }
}

// ---- Locks ----

/// Reading the first of the empty elements `D:keys[..]` among the children,
/// skipping the other nodes: its index.
pub open spec fn pick_loop(evs: Seq<XmlEvent>, st: RState, keys: Seq<Seq<char>>) -> (Result<int, ParsingError>, RState)
    decreases evs.len() - st.pos,
{
    match atoms_spec(evs, st, DAV_URN@, keys, 0) {
        (Err(ParsingError::Recoverable), s) => if 0 <= s.pos < evs.len() {
            match skip_spec(evs, s) {
                (Err(e), s2) => (Err(e), s2),
                (Ok(_), s2) => if st.pos < s2.pos <= evs.len() {
                    pick_loop(evs, s2, keys)
                } else {
                    (Err(ParsingError::Eof), s2)
                },
            }
        } else {
            (Err(ParsingError::Eof), s)
        },
        other => other,
    }
}

/// Reads the first of the empty elements `D:keys[..]` among the children.
fn pick_atom(xml: &mut Reader, keys: &Vec<&str>) -> (r: Result<usize, ParsingError>)
    requires
        old(xml).wf(),
    ensures
        final(xml).wf(),
        final(xml).evs() == old(xml).evs(),
        match r {
            Ok(i) => pick_loop(old(xml).evs(), old(xml).st(), keys_view(keys@)).0 == Ok::<int, ParsingError>(i as int),
            Err(e) => pick_loop(old(xml).evs(), old(xml).st(), keys_view(keys@)).0 == Err::<int, ParsingError>(e),
        },
        final(xml).st() == pick_loop(old(xml).evs(), old(xml).st(), keys_view(keys@)).1,
        final(xml).st().pos >= old(xml).st().pos,
        r is Ok ==> final(xml).st().pos > old(xml).st().pos,
{
    let ghost evs = xml.evs();
    let ghost st0 = xml.st();
    loop
        invariant
            xml.wf(),
            xml.evs() == evs,
            evs == old(xml).evs(),
            st0 == old(xml).st(),
            xml.st().pos >= st0.pos,
            pick_loop(evs, xml.st(), keys_view(keys@)) == pick_loop(evs, st0, keys_view(keys@)),
        decreases evs.len() - xml.st().pos,
    {
        let ghost here = xml.st();
        match xml.read_atom(DAV_URN, keys) {
            Err(ParsingError::Recoverable) => {},
            other => return other,
        }
        proof {
            lemma_skip(evs, xml.st());
        }
        xml.skip()?;
        assert(here.pos < xml.st().pos);
    }
}

/// An element `D:key` holding one of the empty elements `D:keys[..]`
/// (other children skipped): its index.
pub open spec fn choice_spec(evs: Seq<XmlEvent>, st: RState, key: Seq<char>, keys: Seq<Seq<char>>) -> (
    Result<int, ParsingError>,
    RState,
) {
    match open_spec(evs, st, DAV_URN@, key) {
        (Err(e), s) => (Err(e), s),
        (Ok(_), s1) => match pick_loop(evs, s1, keys) {
            (Err(e), s) => (Err(e), s),
            (Ok(i), s2) => match close_spec(evs, s2) {
                (Err(e), s) => (Err(e), s),
                (Ok(_), s3) => (Ok(i), s3),
            },
        },
    }
}

/// Reads an element `D:key` holding one of `D:keys[..]`: its index.
fn read_choice(xml: &mut Reader, key: &str, keys: &Vec<&str>) -> (r: Result<usize, ParsingError>)
    requires
        old(xml).wf(),
    ensures
        final(xml).wf(),
        final(xml).evs() == old(xml).evs(),
        match r {
            Ok(i) => choice_spec(old(xml).evs(), old(xml).st(), key@, keys_view(keys@)).0 == Ok::<int, ParsingError>(
                i as int,
            ),
            Err(e) => choice_spec(old(xml).evs(), old(xml).st(), key@, keys_view(keys@)).0 == Err::<
                int,
                ParsingError,
            >(e),
        },
        final(xml).st() == choice_spec(old(xml).evs(), old(xml).st(), key@, keys_view(keys@)).1,
        final(xml).st().pos >= old(xml).st().pos,
        r is Ok ==> final(xml).st().pos > old(xml).st().pos,
{
    xml.open(DAV_URN, key)?;
    let i = pick_atom(xml, keys)?;
    xml.close()?;
    Ok(i)
}

impl QRead for LockScope {
    open spec fn qread_spec(evs: Seq<XmlEvent>, st: RState) -> (Result<LockScope, ParsingError>, RState) {
        match choice_spec(evs, st, "lockscope"@, seq!["exclusive"@, "shared"@]) {
            (Ok(i), s) => (Ok(if i == 0 { LockScope::Exclusive } else { LockScope::Shared }), s),
            (Err(e), s) => (Err(e), s),
        }
    }

    fn qread(xml: &mut Reader) -> (r: Result<Self, ParsingError>) {
        let keys: Vec<&str> = vec!["exclusive", "shared"];
        assert(keys_view(keys@) =~= seq!["exclusive"@, "shared"@]);
        let i = read_choice(xml, "lockscope", &keys)?;
        Ok(
            if i == 0 {
                LockScope::Exclusive
            } else {
                LockScope::Shared
            },
        )
    }
}

impl QRead for LockType {
    open spec fn qread_spec(evs: Seq<XmlEvent>, st: RState) -> (Result<LockType, ParsingError>, RState) {
        match choice_spec(evs, st, "locktype"@, seq!["write"@]) {
            (Ok(_), s) => (Ok(LockType::Write), s),
            (Err(e), s) => (Err(e), s),
        }
    }

    fn qread(xml: &mut Reader) -> (r: Result<Self, ParsingError>) {
        let keys: Vec<&str> = vec!["write"];
        assert(keys_view(keys@) =~= seq!["write"@]);
        read_choice(xml, "locktype", &keys)?;
        Ok(LockType::Write)
    }
}

/// An element `D:key` holding text: the text.
pub open spec fn text_elem_spec(evs: Seq<XmlEvent>, st: RState, key: Seq<char>) -> (
    Result<Seq<char>, ParsingError>,
    RState,
) {
    match open_spec(evs, st, DAV_URN@, key) {
        (Err(e), s) => (Err(e), s),
        (Ok(_), s1) => match tag_string_spec(evs, s1) {
            (Err(e), s) => (Err(e), s),
            (Ok(t), s2) => (Ok(t), s2),
        },
    }
}

/// Opens `D:key` and reads its text.
fn open_text(xml: &mut Reader, key: &str) -> (r: Result<String, ParsingError>)
    requires
        old(xml).wf(),
    ensures
        final(xml).wf(),
        final(xml).evs() == old(xml).evs(),
        match r {
            Ok(t) => text_elem_spec(old(xml).evs(), old(xml).st(), key@).0 == Ok::<Seq<char>, ParsingError>(t@),
            Err(e) => text_elem_spec(old(xml).evs(), old(xml).st(), key@).0 == Err::<Seq<char>, ParsingError>(e),
        },
        final(xml).st() == text_elem_spec(old(xml).evs(), old(xml).st(), key@).1,
        final(xml).st().pos >= old(xml).st().pos,
{
    xml.open(DAV_URN, key)?;
    xml.tag_string()
}

/// The depth a text names.
pub open spec fn depth_of(t: Seq<char>) -> Option<Depth> {
    if t == "0"@ {
        Some(Depth::Zero)
    } else if t == "1"@ {
        Some(Depth::One)
    } else if t == "infinity"@ {
        Some(Depth::Infinity)
    } else {
        None
    }
}

impl QRead for Depth {
    /// `<D:depth>`: `0`, `1` or `infinity`; the element is closed before
    /// its text is checked.
    open spec fn qread_spec(evs: Seq<XmlEvent>, st: RState) -> (Result<Depth, ParsingError>, RState) {
        match text_elem_spec(evs, st, "depth"@) {
            (Err(e), s) => (Err(e), s),
            (Ok(t), s1) => match close_spec(evs, s1) {
                (Err(e), s) => (Err(e), s),
                (Ok(_), s2) => match depth_of(t) {
                    Some(d) => (Ok(d), s2),
                    None => (Err(ParsingError::WrongToken), s2),
                },
            },
        }
    }

    fn qread(xml: &mut Reader) -> (r: Result<Self, ParsingError>) {
        let t = open_text(xml, "depth")?;
        xml.close()?;
        if str_eq(t.as_str(), "0") {
            Ok(Depth::Zero)
        } else if str_eq(t.as_str(), "1") {
            Ok(Depth::One)
        } else if str_eq(t.as_str(), "infinity") {
            Ok(Depth::Infinity)
        } else {
            Err(ParsingError::WrongToken)
        }
    }
}

/// The `u32` a text writes as `str::parse` reads it.
pub open spec fn u32_of(s: Seq<char>) -> Option<u32> {
    match u64_of(s) {
        Some(v) => if v <= u32::MAX {
            Some(v as u32)
        } else {
            None
        },
        None => None,
    }
}

/// The timeout a text names: `Infinite`, or `Second-` and a number; the
/// error when it names none.
pub open spec fn timeout_of(t: Seq<char>) -> Result<Timeout, ParsingError> {
    let pfx = "Second-"@;
    if t == "Infinite"@ {
        Ok(Timeout::Infinite)
    } else if pfx.len() <= t.len() && t.take(pfx.len() as int) == pfx {
        match u32_of(t.skip(pfx.len() as int)) {
            Some(v) => Ok(Timeout::Seconds(v)),
            None => Err(ParsingError::Int),
        }
    } else {
        Err(ParsingError::InvalidValue)
    }
}

impl QRead for Timeout {
    /// `<D:timeout>`: `Infinite` or `Second-n`.
    open spec fn qread_spec(evs: Seq<XmlEvent>, st: RState) -> (Result<Timeout, ParsingError>, RState) {
        match text_elem_spec(evs, st, "timeout"@) {
            (Err(e), s) => (Err(e), s),
            (Ok(t), s1) => match timeout_of(t) {
                Err(e) => (Err(e), s1),
                Ok(v) => match close_spec(evs, s1) {
                    (Err(e), s) => (Err(e), s),
                    (Ok(_), s2) => (Ok(v), s2),
                },
            },
        }
    }

    fn qread(xml: &mut Reader) -> (r: Result<Self, ParsingError>) {
        let t = open_text(xml, "timeout")?;
        let timeout = if str_eq(t.as_str(), "Infinite") {
            Timeout::Infinite
        } else {
            let cs = chars_of(t.as_str());
            let pfx = chars_of("Second-");
            proof {
                reveal_strlit("Second-");
            }
            let mut starts = pfx.len() <= cs.len();
            let mut i: usize = 0;
            while starts && i < pfx.len()
                invariant
                    i <= pfx@.len(),
                    pfx@ == "Second-"@,
                    starts ==> pfx@.len() <= cs@.len() && cs@.take(i as int) == pfx@.take(i as int),
                    !starts ==> !(pfx@.len() <= cs@.len() && cs@.take(pfx@.len() as int) == pfx@),
                decreases (pfx@.len() - i) * 2 + if starts {
                    1int
                } else {
                    0int
                },
            {
                if cs[i] != pfx[i] {
                    proof {
                        assert(cs@.take(pfx@.len() as int)[i as int] != pfx@[i as int]);
                    }
                    starts = false;
                } else {
                    proof {
                        assert(cs@.take(i + 1) == cs@.take(i as int).push(cs@[i as int]));
                        assert(pfx@.take(i + 1) == pfx@.take(i as int).push(pfx@[i as int]));
                    }
                    i = i + 1;
                }
            }
            if !starts {
                return Err(ParsingError::InvalidValue);
            }
            proof {
                assert(pfx@.take(pfx@.len() as int) == pfx@);
            }
            let rest = chars_to_string(&cs, pfx.len(), cs.len());
            proof {
                assert(cs@.subrange(pfx@.len() as int, cs@.len() as int) == t@.skip(pfx@.len() as int));
            }
            match parse_u64(rest.as_str()) {
                Some(v) => if v <= 4294967295 {
                    Timeout::Seconds(v as u32)
                } else {
                    return Err(ParsingError::Int);
                },
                None => return Err(ParsingError::Int),
            }
        };
        xml.close()?;
        Ok(timeout)
    }
}

/// An element `D:key` holding a reference among its children.
pub open spec fn href_holder_spec(evs: Seq<XmlEvent>, st: RState, key: Seq<char>) -> (
    Result<Seq<char>, ParsingError>,
    RState,
) {
    match open_spec(evs, st, DAV_URN@, key) {
        (Err(e), s) => (Err(e), s),
        (Ok(_), s1) => match find_spec::<Href>(evs, s1) {
            (Err(e), s) => (Err(e), s),
            (Ok(h), s2) => match close_spec(evs, s2) {
                (Err(e), s) => (Err(e), s),
                (Ok(_), s3) => (Ok(h), s3),
            },
        },
    }
}

/// Reads an element `D:key` holding a reference.
fn read_href_holder(xml: &mut Reader, key: &str) -> (r: Result<Href, ParsingError>)
    requires
        old(xml).wf(),
    ensures
        final(xml).wf(),
        final(xml).evs() == old(xml).evs(),
        match r {
            Ok(h) => href_holder_spec(old(xml).evs(), old(xml).st(), key@).0 == Ok::<Seq<char>, ParsingError>(h@),
            Err(e) => href_holder_spec(old(xml).evs(), old(xml).st(), key@).0 == Err::<Seq<char>, ParsingError>(e),
        },
        final(xml).st() == href_holder_spec(old(xml).evs(), old(xml).st(), key@).1,
        final(xml).st().pos >= old(xml).st().pos,
        r is Ok ==> final(xml).st().pos > old(xml).st().pos,
{
    xml.open(DAV_URN, key)?;
    let href: Href = xml.find()?;
    xml.close()?;
    Ok(href)
}

impl QRead for LockToken {
    open spec fn qread_spec(evs: Seq<XmlEvent>, st: RState) -> (Result<Seq<char>, ParsingError>, RState) {
        href_holder_spec(evs, st, "locktoken"@)
    }

    fn qread(xml: &mut Reader) -> (r: Result<Self, ParsingError>) {
        let h = read_href_holder(xml, "locktoken")?;
        Ok(LockToken(h))
    }
}

impl QRead for LockRoot {
    open spec fn qread_spec(evs: Seq<XmlEvent>, st: RState) -> (Result<Seq<char>, ParsingError>, RState) {
        href_holder_spec(evs, st, "lockroot"@)
    }

    fn qread(xml: &mut Reader) -> (r: Result<Self, ParsingError>) {
        let h = read_href_holder(xml, "lockroot")?;
        Ok(LockRoot(h))
    }
}

impl QRead for Location {
    open spec fn qread_spec(evs: Seq<XmlEvent>, st: RState) -> (Result<Seq<char>, ParsingError>, RState) {
        href_holder_spec(evs, st, "location"@)
    }

    fn qread(xml: &mut Reader) -> (r: Result<Self, ParsingError>) {
        let h = read_href_holder(xml, "location")?;
        Ok(Location(h))
    }
}

impl QRead for ResponseDescription {
    open spec fn qread_spec(evs: Seq<XmlEvent>, st: RState) -> (Result<Seq<char>, ParsingError>, RState) {
        match text_elem_spec(evs, st, "responsedescription"@) {
            (Err(e), s) => (Err(e), s),
            (Ok(t), s1) => match close_spec(evs, s1) {
                (Err(e), s) => (Err(e), s),
                (Ok(_), s2) => (Ok(t), s2),
            },
        }
    }

    fn qread(xml: &mut Reader) -> (r: Result<Self, ParsingError>) {
        let t = open_text(xml, "responsedescription")?;
        xml.close()?;
        Ok(ResponseDescription(t))
    }
}

// ---- Status ----

/// The status code `http::StatusCode::from_bytes` reads from bytes: three
/// ASCII digits, the first not zero.
pub open spec fn status_code_of(b: Seq<u8>) -> Option<u16> {
    if b.len() == 3 && 49 <= b[0] <= 57 && 48 <= b[1] <= 57 && 48 <= b[2] <= 57 {
        Some(((b[0] - 48) * 100 + (b[1] - 48) * 10 + (b[2] - 48)) as u16)
    } else {
        None
    }
}

/// `http::StatusCode::from_bytes`, as a number: it accepts exactly three
/// ASCII digits whose first is not zero (what its source checks).
#[verifier::external_body]
fn status_from_bytes(src: &[u8]) -> (r: Option<u16>)
    ensures
        r == status_code_of(src@),
{
    match http::StatusCode::from_bytes(src) {
        Ok(c) => Some(c.as_u16()),
        Err(_) => None,
    }
}

/// The position of the first space at or after `i`, or the length.
pub open spec fn space_from(t: Seq<char>, i: int) -> int
    decreases t.len() - i,
{
    if i < 0 || i >= t.len() || t[i] == ' ' {
        i
    } else {
        space_from(t, i + 1)
    }
}

/// The second of the space-separated fields of a text (`splitn(3, ' ')`
/// then `nth(1)`), if it has one.
pub open spec fn second_field(t: Seq<char>) -> Option<Seq<char>> {
    let a = space_from(t, 0);
    if a >= t.len() {
        None
    } else {
        Some(t.subrange(a + 1, space_from(t, a + 1)))
    }
}

proof fn lemma_space_from(t: Seq<char>, i: int)
    requires
        0 <= i <= t.len(),
    ensures
        i <= space_from(t, i) <= t.len(),
        space_from(t, i) < t.len() ==> t[space_from(t, i)] == ' ',
    decreases t.len() - i,
{
    if i < t.len() && t[i] != ' ' {
        lemma_space_from(t, i + 1);
    }
}

/// The first space at or after `i`.
fn find_space(cs: &Vec<char>, i: usize) -> (r: usize)
    requires
        i <= cs@.len(),
    ensures
        r == space_from(cs@, i as int),
{
    let mut j = i;
    while j < cs.len() && cs[j] != ' '
        invariant
            i <= j <= cs@.len(),
            space_from(cs@, j as int) == space_from(cs@, i as int),
        decreases cs@.len() - j,
    {
        j = j + 1;
    }
    j
}

/// The status code a status line holds: its second field.
pub open spec fn status_of(t: Seq<char>) -> Option<u16> {
    match second_field(t) {
        Some(f) => status_code_of(vstd::utf8::encode_utf8(f)),
        None => None,
    }
}

impl QRead for Status {
    /// `<D:status>`: an HTTP status line, of which the code is kept.
    open spec fn qread_spec(evs: Seq<XmlEvent>, st: RState) -> (Result<u16, ParsingError>, RState) {
        match text_elem_spec(evs, st, "status"@) {
            (Err(e), s) => (Err(e), s),
            (Ok(t), s1) => match status_of(t) {
                None => (Err(ParsingError::InvalidValue), s1),
                Some(c) => match close_spec(evs, s1) {
                    (Err(e), s) => (Err(e), s),
                    (Ok(_), s2) => (Ok(c), s2),
                },
            },
        }
    }

    fn qread(xml: &mut Reader) -> (r: Result<Self, ParsingError>) {
        let t = open_text(xml, "status")?;
        let cs = chars_of(t.as_str());
        let a = find_space(&cs, 0);
        if a >= cs.len() {
            return Err(ParsingError::InvalidValue);
        }
        let b = find_space(&cs, a + 1);
        proof {
            lemma_space_from(cs@, a + 1);
        }
        let field = chars_to_string(&cs, a + 1, b);
        let code = match status_from_bytes(field.as_str().as_bytes()) {
            Some(c) => c,
            None => return Err(ParsingError::InvalidValue),
        };
        xml.close()?;
        Ok(Status(code))
    }
}

// ---- Owner ----

/// Reading the content of an owner element from the current event on:
/// its first text, unless a reference comes, which wins; other elements
/// are skipped.
pub open spec fn owner_loop(evs: Seq<XmlEvent>, st: RState, o: OwnerView) -> (Result<OwnerView, ParsingError>, RState)
    decreases evs.len() - st.pos,
{
    if 0 <= st.pos < evs.len() {
        match evs[st.pos] {
            XmlEvent::End(_) => (Ok(o), st),
            XmlEvent::Text(_) => owner_text(evs, st, o),
            XmlEvent::CData(_) => owner_text(evs, st, o),
            XmlEvent::Start(_) => owner_elem(evs, st, o),
            XmlEvent::Empty(_) => owner_elem(evs, st, o),
            _ => match skip_spec(evs, st) {
                (Err(e), s) => (Err(e), s),
                (Ok(_), s) => if st.pos < s.pos <= evs.len() {
                    owner_loop(evs, s, o)
                } else {
                    (Err(ParsingError::Eof), s)
                },
            },
        }
    } else {
        (Err(ParsingError::Eof), st)
    }
}

/// `owner_loop` at text.
pub open spec fn owner_text(evs: Seq<XmlEvent>, st: RState, o: OwnerView) -> (Result<OwnerView, ParsingError>, RState)
    decreases evs.len() - st.pos, 0int,
{
    match tag_string_spec(evs, st) {
        (Err(e), s) => (Err(e), s),
        (Ok(t), s) => {
            let o2 = if o is Unknown {
                OwnerView::Txt(t)
            } else {
                o
            };
            if st.pos < s.pos <= evs.len() {
                owner_loop(evs, s, o2)
            } else {
                (Err(ParsingError::Eof), s)
            }
        },
    }
}

/// `owner_loop` at an element.
pub open spec fn owner_elem(evs: Seq<XmlEvent>, st: RState, o: OwnerView) -> (Result<OwnerView, ParsingError>, RState)
    decreases evs.len() - st.pos, 0int,
{
    match <Href as QRead>::qread_spec(evs, st) {
        (Ok(h), s) => if st.pos < s.pos <= evs.len() {
            owner_loop(evs, s, OwnerView::Href(h))
        } else {
            (Err(ParsingError::Eof), s)
        },
        (Err(ParsingError::Recoverable), s1) => if 0 <= s1.pos < evs.len() {
            match skip_spec(evs, s1) {
                (Err(e), s) => (Err(e), s),
                (Ok(_), s) => if st.pos < s.pos <= evs.len() {
                    owner_loop(evs, s, o)
                } else {
                    (Err(ParsingError::Eof), s)
                },
            }
        } else {
            (Err(ParsingError::Eof), s1)
        },
        (Err(e), s) => (Err(e), s),
    }
}

impl QRead for Owner {
    /// `<D:owner>`: a text or a reference, or neither.
    open spec fn qread_spec(evs: Seq<XmlEvent>, st: RState) -> (Result<OwnerView, ParsingError>, RState) {
        match open_spec(evs, st, DAV_URN@, "owner"@) {
            (Err(e), s) => (Err(e), s),
            (Ok(_), s1) => match owner_loop(evs, s1, OwnerView::Unknown) {
                (Err(e), s) => (Err(e), s),
                (Ok(o), s2) => match close_spec(evs, s2) {
                    (Err(e), s) => (Err(e), s),
                    (Ok(_), s3) => (Ok(o), s3),
                },
            },
        }
    }

    fn qread(xml: &mut Reader) -> (r: Result<Self, ParsingError>) {
        xml.open(DAV_URN, "owner")?;
        let ghost evs = xml.evs();
        let ghost s1 = xml.st();
        let ghost start = old(xml).st();
        let mut owner = Owner::Unknown;
        loop
            invariant_except_break
                owner_loop(evs, xml.st(), owner@) == owner_loop(evs, s1, OwnerView::Unknown),
            invariant
                xml.wf(),
                xml.evs() == evs,
                evs == old(xml).evs(),
                start == old(xml).st(),
                xml.st().pos >= s1.pos,
                s1.pos >= start.pos,
                open_spec(evs, start, DAV_URN@, "owner"@).1 == s1,
                open_spec(evs, start, DAV_URN@, "owner"@).0 is Ok,
            ensures
                owner_loop(evs, s1, OwnerView::Unknown) == (Ok::<OwnerView, ParsingError>(owner@), xml.st()),
            decreases evs.len() - xml.st().pos,
        {
            let ghost here = xml.st();
            let kind: u8 = match xml.peek() {
                XmlEvent::Text(_) => 0,
                XmlEvent::CData(_) => 0,
                XmlEvent::Start(_) => 1,
                XmlEvent::Empty(_) => 1,
                XmlEvent::End(_) => 2,
                _ => 3,
            };
            if kind == 0 {
                proof {
                    assert(owner_loop(evs, here, owner@) == owner_text(evs, here, owner@));
                }
                let txt = xml.tag_string()?;
                if let Owner::Unknown = owner {
                    owner = Owner::Txt(txt);
                }
            } else if kind == 1 {
                proof {
                    assert(owner_loop(evs, here, owner@) == owner_elem(evs, here, owner@));
                }
                match Href::qread(xml) {
                    Ok(href) => {
                        owner = Owner::Href(href);
                    },
                    Err(ParsingError::Recoverable) => {
                        proof {
                            lemma_skip(evs, xml.st());
                        }
                        xml.skip()?;
                    },
                    Err(e) => return Err(e),
                }
            } else if kind == 2 {
                break;
            } else {
                proof {
                    lemma_skip(evs, xml.st());
                }
                xml.skip()?;
            }
            assert(here.pos < xml.st().pos);
        }
        xml.close()?;
        Ok(owner)
    }
}

// ---- Lock structures ----

/// What has been read of a lock entry so far.
pub struct EntrySlots {
    pub scope: Option<LockScope>,
    pub ty: Option<LockType>,
}

/// One pass over the children of a lock entry: a scope, then a type, each
/// read where it stands.
pub open spec fn entry_step(evs: Seq<XmlEvent>, st: RState, sl: EntrySlots) -> (
    Result<(), ParsingError>,
    RState,
    EntrySlots,
    bool,
) {
    let (r1, s1, a, d1) = maybe_read_spec::<LockScope>(evs, st, sl.scope, false);
    if r1 is Err {
        (r1, s1, EntrySlots { scope: a, ty: sl.ty }, d1)
    } else {
        let (r2, s2, b, d2) = maybe_read_spec::<LockType>(evs, s1, sl.ty, d1);
        (r2, s2, EntrySlots { scope: a, ty: b }, d2)
    }
}

/// Passes over the children of a lock entry until a pass reads nothing
/// at its closing tag; the nodes where nothing reads are skipped.
pub open spec fn entry_loop(evs: Seq<XmlEvent>, st: RState, sl: EntrySlots) -> (
    Result<(), ParsingError>,
    RState,
    EntrySlots,
)
    decreases evs.len() - st.pos,
{
    let (r, s, sl2, dirty) = entry_step(evs, st, sl);
    if r is Err {
        (r, s, sl2)
    } else if dirty {
        if st.pos < s.pos <= evs.len() {
            entry_loop(evs, s, sl2)
        } else {
            (Err(ParsingError::Eof), s, sl2)
        }
    } else if 0 <= s.pos < evs.len() {
        if evs[s.pos] is End {
            (Ok(()), s, sl2)
        } else {
            match skip_spec(evs, s) {
                (Err(e), s2) => (Err(e), s2, sl2),
                (Ok(_), s2) => if st.pos < s2.pos <= evs.len() {
                    entry_loop(evs, s2, sl2)
                } else {
                    (Err(ParsingError::Eof), s2, sl2)
                },
            }
        }
    } else {
        (Err(ParsingError::Eof), s, sl2)
    }
}

impl QRead for LockEntry {
    /// `<D:lockentry>`: a scope and a type, both required.
    open spec fn qread_spec(evs: Seq<XmlEvent>, st: RState) -> (Result<LockEntry, ParsingError>, RState) {
        match open_spec(evs, st, DAV_URN@, "lockentry"@) {
            (Err(e), s) => (Err(e), s),
            (Ok(_), s1) => match entry_loop(evs, s1, EntrySlots { scope: None, ty: None }) {
                (Err(e), s, _) => (Err(e), s),
                (Ok(_), s2, sl) => match close_spec(evs, s2) {
                    (Err(e), s) => (Err(e), s),
                    (Ok(_), s3) => match (sl.scope, sl.ty) {
                        (Some(a), Some(b)) => (Ok(LockEntry { lockscope: a, locktype: b }), s3),
                        _ => (Err(ParsingError::MissingChild), s3),
                    },
                },
            },
        }
    }

    fn qread(xml: &mut Reader) -> (r: Result<Self, ParsingError>) {
        xml.open(DAV_URN, "lockentry")?;
        let ghost evs = xml.evs();
        let ghost s1 = xml.st();
        let ghost start = old(xml).st();
        let mut maybe_scope: Option<LockScope> = None;
        let mut maybe_type: Option<LockType> = None;
        loop
            invariant_except_break
                entry_loop(evs, xml.st(), EntrySlots { scope: opt_view(maybe_scope), ty: opt_view(maybe_type) })
                    == entry_loop(evs, s1, EntrySlots { scope: None, ty: None }),
            invariant
                xml.wf(),
                xml.evs() == evs,
                evs == old(xml).evs(),
                start == old(xml).st(),
                xml.st().pos >= s1.pos,
                s1.pos >= start.pos,
                open_spec(evs, start, DAV_URN@, "lockentry"@).1 == s1,
                open_spec(evs, start, DAV_URN@, "lockentry"@).0 is Ok,
            ensures
                entry_loop(evs, s1, EntrySlots { scope: None, ty: None }) == (
                    Ok::<(), ParsingError>(()),
                    xml.st(),
                    EntrySlots { scope: opt_view(maybe_scope), ty: opt_view(maybe_type) },
                ),
            decreases evs.len() - xml.st().pos,
        {
            let ghost here = xml.st();
            let mut dirty = false;
            xml.maybe_read(&mut maybe_scope, &mut dirty)?;
            xml.maybe_read(&mut maybe_type, &mut dirty)?;
            if !dirty {
                if let XmlEvent::End(_) = xml.peek() {
                    break;
                }
                proof {
                    lemma_skip(evs, xml.st());
                }
                xml.skip()?;
            }
            assert(here.pos < xml.st().pos);
        }
        xml.close()?;
        match (maybe_scope, maybe_type) {
            (Some(lockscope), Some(locktype)) => Ok(LockEntry { lockscope, locktype }),
            _ => Err(ParsingError::MissingChild),
        }
    }
}

/// What has been read of a lock request so far.
pub struct InfoSlots {
    pub scope: Option<LockScope>,
    pub ty: Option<LockType>,
    pub owner: Option<OwnerView>,
}

/// One pass over the children of a lock request: a scope, a type, an
/// owner, each read where it stands.
pub open spec fn info_step(evs: Seq<XmlEvent>, st: RState, sl: InfoSlots) -> (
    Result<(), ParsingError>,
    RState,
    InfoSlots,
    bool,
) {
    let (r1, s1, a, d1) = maybe_read_spec::<LockScope>(evs, st, sl.scope, false);
    if r1 is Err {
        (r1, s1, InfoSlots { scope: a, ty: sl.ty, owner: sl.owner }, d1)
    } else {
        let (r2, s2, b, d2) = maybe_read_spec::<LockType>(evs, s1, sl.ty, d1);
        if r2 is Err {
            (r2, s2, InfoSlots { scope: a, ty: b, owner: sl.owner }, d2)
        } else {
            let (r3, s3, c, d3) = maybe_read_spec::<Owner>(evs, s2, sl.owner, d2);
            (r3, s3, InfoSlots { scope: a, ty: b, owner: c }, d3)
        }
    }
}

/// Passes over the children of a lock request; see `entry_loop`.
pub open spec fn info_loop(evs: Seq<XmlEvent>, st: RState, sl: InfoSlots) -> (
    Result<(), ParsingError>,
    RState,
    InfoSlots,
)
    decreases evs.len() - st.pos,
{
    let (r, s, sl2, dirty) = info_step(evs, st, sl);
    if r is Err {
        (r, s, sl2)
    } else if dirty {
        if st.pos < s.pos <= evs.len() {
            info_loop(evs, s, sl2)
        } else {
            (Err(ParsingError::Eof), s, sl2)
        }
    } else if 0 <= s.pos < evs.len() {
        if evs[s.pos] is End {
            (Ok(()), s, sl2)
        } else {
            match skip_spec(evs, s) {
                (Err(e), s2) => (Err(e), s2, sl2),
                (Ok(_), s2) => if st.pos < s2.pos <= evs.len() {
                    info_loop(evs, s2, sl2)
                } else {
                    (Err(ParsingError::Eof), s2, sl2)
                },
            }
        }
    } else {
        (Err(ParsingError::Eof), s, sl2)
    }
}

impl QRead for LockInfo {
    /// `<D:lockinfo>`: a scope and a type, both required, and perhaps an
    /// owner.
    open spec fn qread_spec(evs: Seq<XmlEvent>, st: RState) -> (Result<LockInfoView, ParsingError>, RState) {
        match open_spec(evs, st, DAV_URN@, "lockinfo"@) {
            (Err(e), s) => (Err(e), s),
            (Ok(_), s1) => match info_loop(evs, s1, InfoSlots { scope: None, ty: None, owner: None }) {
                (Err(e), s, _) => (Err(e), s),
                (Ok(_), s2, sl) => match close_spec(evs, s2) {
                    (Err(e), s) => (Err(e), s),
                    (Ok(_), s3) => match (sl.scope, sl.ty) {
                        (Some(a), Some(b)) => (Ok(LockInfoView { lockscope: a, locktype: b, owner: sl.owner }), s3),
                        _ => (Err(ParsingError::MissingChild), s3),
                    },
                },
            },
        }
    }

    fn qread(xml: &mut Reader) -> (r: Result<Self, ParsingError>) {
        xml.open(DAV_URN, "lockinfo")?;
        let ghost evs = xml.evs();
        let ghost s1 = xml.st();
        let ghost start = old(xml).st();
        let mut m_scope: Option<LockScope> = None;
        let mut m_type: Option<LockType> = None;
        let mut owner: Option<Owner> = None;
        loop
            invariant_except_break
                info_loop(
                    evs,
                    xml.st(),
                    InfoSlots { scope: opt_view(m_scope), ty: opt_view(m_type), owner: opt_view(owner) },
                ) == info_loop(evs, s1, InfoSlots { scope: None, ty: None, owner: None }),
            invariant
                xml.wf(),
                xml.evs() == evs,
                evs == old(xml).evs(),
                start == old(xml).st(),
                xml.st().pos >= s1.pos,
                s1.pos >= start.pos,
                open_spec(evs, start, DAV_URN@, "lockinfo"@).1 == s1,
                open_spec(evs, start, DAV_URN@, "lockinfo"@).0 is Ok,
            ensures
                info_loop(evs, s1, InfoSlots { scope: None, ty: None, owner: None }) == (
                    Ok::<(), ParsingError>(()),
                    xml.st(),
                    InfoSlots { scope: opt_view(m_scope), ty: opt_view(m_type), owner: opt_view(owner) },
                ),
            decreases evs.len() - xml.st().pos,
        {
            let ghost here = xml.st();
            let mut dirty = false;
            xml.maybe_read(&mut m_scope, &mut dirty)?;
            xml.maybe_read(&mut m_type, &mut dirty)?;
            xml.maybe_read(&mut owner, &mut dirty)?;
            if !dirty {
                if let XmlEvent::End(_) = xml.peek() {
                    break;
                }
                proof {
                    lemma_skip(evs, xml.st());
                }
                xml.skip()?;
            }
            assert(here.pos < xml.st().pos);
        }
        xml.close()?;
        match (m_scope, m_type) {
            (Some(lockscope), Some(locktype)) => Ok(LockInfo { lockscope, locktype, owner }),
            _ => Err(ParsingError::MissingChild),
        }
    }
}

/// What has been read of an active lock so far.
pub struct ActiveSlots {
    pub scope: Option<LockScope>,
    pub ty: Option<LockType>,
    pub depth: Option<Depth>,
    pub owner: Option<OwnerView>,
    pub timeout: Option<Timeout>,
    pub token: Option<Seq<char>>,
    pub root: Option<Seq<char>>,
}

/// One pass over the children of an active lock: a scope, a type, a
/// depth, an owner, a timeout, a token, a root, each read where it stands.
pub open spec fn active_step(evs: Seq<XmlEvent>, st: RState, sl: ActiveSlots) -> (
    Result<(), ParsingError>,
    RState,
    ActiveSlots,
    bool,
) {
    let (r1, s1, a, d1) = maybe_read_spec::<LockScope>(evs, st, sl.scope, false);
    let sl1 = ActiveSlots { scope: a, ..sl };
    if r1 is Err {
        (r1, s1, sl1, d1)
    } else {
        let (r2, s2, b, d2) = maybe_read_spec::<LockType>(evs, s1, sl.ty, d1);
        let sl2 = ActiveSlots { ty: b, ..sl1 };
        if r2 is Err {
            (r2, s2, sl2, d2)
        } else {
            let (r3, s3, c, d3) = maybe_read_spec::<Depth>(evs, s2, sl.depth, d2);
            let sl3 = ActiveSlots { depth: c, ..sl2 };
            if r3 is Err {
                (r3, s3, sl3, d3)
            } else {
                let (r4, s4, o, d4) = maybe_read_spec::<Owner>(evs, s3, sl.owner, d3);
                let sl4 = ActiveSlots { owner: o, ..sl3 };
                if r4 is Err {
                    (r4, s4, sl4, d4)
                } else {
                    let (r5, s5, t, d5) = maybe_read_spec::<Timeout>(evs, s4, sl.timeout, d4);
                    let sl5 = ActiveSlots { timeout: t, ..sl4 };
                    if r5 is Err {
                        (r5, s5, sl5, d5)
                    } else {
                        let (r6, s6, k, d6) = maybe_read_spec::<LockToken>(evs, s5, sl.token, d5);
                        let sl6 = ActiveSlots { token: k, ..sl5 };
                        if r6 is Err {
                            (r6, s6, sl6, d6)
                        } else {
                            let (r7, s7, rt, d7) = maybe_read_spec::<LockRoot>(evs, s6, sl.root, d6);
                            (r7, s7, ActiveSlots { root: rt, ..sl6 }, d7)
                        }
                    }
                }
            }
        }
    }
}

/// Passes over the children of an active lock; see `entry_loop`.
pub open spec fn active_loop(evs: Seq<XmlEvent>, st: RState, sl: ActiveSlots) -> (
    Result<(), ParsingError>,
    RState,
    ActiveSlots,
)
    decreases evs.len() - st.pos,
{
    let (r, s, sl2, dirty) = active_step(evs, st, sl);
    if r is Err {
        (r, s, sl2)
    } else if dirty {
        if st.pos < s.pos <= evs.len() {
            active_loop(evs, s, sl2)
        } else {
            (Err(ParsingError::Eof), s, sl2)
        }
    } else if 0 <= s.pos < evs.len() {
        if evs[s.pos] is End {
            (Ok(()), s, sl2)
        } else {
            match skip_spec(evs, s) {
                (Err(e), s2) => (Err(e), s2, sl2),
                (Ok(_), s2) => if st.pos < s2.pos <= evs.len() {
                    active_loop(evs, s2, sl2)
                } else {
                    (Err(ParsingError::Eof), s2, sl2)
                },
            }
        }
    } else {
        (Err(ParsingError::Eof), s, sl2)
    }
}

/// No slot read yet.
pub open spec fn no_active_slots() -> ActiveSlots {
    ActiveSlots { scope: None, ty: None, depth: None, owner: None, timeout: None, token: None, root: None }
}

impl QRead for ActiveLock {
    /// `<D:activelock>`: a scope, a type, a depth and a root, all required,
    /// and perhaps an owner, a timeout and a token.
    open spec fn qread_spec(evs: Seq<XmlEvent>, st: RState) -> (Result<ActiveLockView, ParsingError>, RState) {
        match open_spec(evs, st, DAV_URN@, "activelock"@) {
            (Err(e), s) => (Err(e), s),
            (Ok(_), s1) => match active_loop(evs, s1, no_active_slots()) {
                (Err(e), s, _) => (Err(e), s),
                (Ok(_), s2, sl) => match close_spec(evs, s2) {
                    (Err(e), s) => (Err(e), s),
                    (Ok(_), s3) => match (sl.scope, sl.ty, sl.depth, sl.root) {
                        (Some(a), Some(b), Some(d), Some(rt)) => (
                            Ok(
                                ActiveLockView {
                                    lockscope: a,
                                    locktype: b,
                                    depth: d,
                                    owner: sl.owner,
                                    timeout: sl.timeout,
                                    locktoken: sl.token,
                                    lockroot: rt,
                                },
                            ),
                            s3,
                        ),
                        _ => (Err(ParsingError::MissingChild), s3),
                    },
                },
            },
        }
    }

    fn qread(xml: &mut Reader) -> (r: Result<Self, ParsingError>) {
        xml.open(DAV_URN, "activelock")?;
        let ghost evs = xml.evs();
        let ghost s1 = xml.st();
        let ghost start = old(xml).st();
        let mut m_scope: Option<LockScope> = None;
        let mut m_type: Option<LockType> = None;
        let mut m_depth: Option<Depth> = None;
        let mut owner: Option<Owner> = None;
        let mut timeout: Option<Timeout> = None;
        let mut locktoken: Option<LockToken> = None;
        let mut m_root: Option<LockRoot> = None;
        loop
            invariant_except_break
                active_loop(
                    evs,
                    xml.st(),
                    ActiveSlots {
                        scope: opt_view(m_scope),
                        ty: opt_view(m_type),
                        depth: opt_view(m_depth),
                        owner: opt_view(owner),
                        timeout: opt_view(timeout),
                        token: opt_view(locktoken),
                        root: opt_view(m_root),
                    },
                ) == active_loop(evs, s1, no_active_slots()),
            invariant
                xml.wf(),
                xml.evs() == evs,
                evs == old(xml).evs(),
                start == old(xml).st(),
                xml.st().pos >= s1.pos,
                s1.pos >= start.pos,
                open_spec(evs, start, DAV_URN@, "activelock"@).1 == s1,
                open_spec(evs, start, DAV_URN@, "activelock"@).0 is Ok,
            ensures
                active_loop(evs, s1, no_active_slots()) == (
                    Ok::<(), ParsingError>(()),
                    xml.st(),
                    ActiveSlots {
                        scope: opt_view(m_scope),
                        ty: opt_view(m_type),
                        depth: opt_view(m_depth),
                        owner: opt_view(owner),
                        timeout: opt_view(timeout),
                        token: opt_view(locktoken),
                        root: opt_view(m_root),
                    },
                ),
            decreases evs.len() - xml.st().pos,
        {
            let ghost here = xml.st();
            let mut dirty = false;
            xml.maybe_read(&mut m_scope, &mut dirty)?;
            xml.maybe_read(&mut m_type, &mut dirty)?;
            xml.maybe_read(&mut m_depth, &mut dirty)?;
            xml.maybe_read(&mut owner, &mut dirty)?;
            xml.maybe_read(&mut timeout, &mut dirty)?;
            xml.maybe_read(&mut locktoken, &mut dirty)?;
            xml.maybe_read(&mut m_root, &mut dirty)?;
            if !dirty {
                if let XmlEvent::End(_) = xml.peek() {
                    break;
                }
                proof {
                    lemma_skip(evs, xml.st());
                }
                xml.skip()?;
            }
            assert(here.pos < xml.st().pos);
        }
        xml.close()?;
        match (m_scope, m_type, m_depth, m_root) {
            (Some(lockscope), Some(locktype), Some(depth), Some(lockroot)) => Ok(
                ActiveLock { lockscope, locktype, depth, owner, timeout, locktoken, lockroot },
            ),
            _ => Err(ParsingError::MissingChild),
        }
    }
}


/// The depth a text names: exactly `0`, `1` and `infinity` name one.
pub proof fn law_depth_names(t: Seq<char>)
    ensures
        depth_of(t) == Some(Depth::Zero) <==> t == "0"@,
        depth_of(t) == Some(Depth::One) <==> t == "1"@,
        depth_of(t) == Some(Depth::Infinity) <==> t == "infinity"@,
        depth_of(t) is None <==> (t != "0"@ && t != "1"@ && t != "infinity"@),
{
    reveal_strlit("0");
    reveal_strlit("1");
    reveal_strlit("infinity");
    assert("0"@[0] != "1"@[0]);
    assert("0"@.len() != "infinity"@.len() && "1"@.len() != "infinity"@.len());
}

/// A timeout of `Second-` and a number is that many seconds, one too large
/// for a `u32` is an integer error; `Infinite` is infinite; any other text
/// is refused.
pub proof fn law_timeout_text(digits: Seq<char>)
    ensures
        timeout_of("Second-"@ + digits) == match u32_of(digits) {
            Some(n) => Ok::<Timeout, ParsingError>(Timeout::Seconds(n)),
            None => Err(ParsingError::Int),
        },
        timeout_of("Infinite"@) == Ok::<Timeout, ParsingError>(Timeout::Infinite),
{
    reveal_strlit("Second-");
    reveal_strlit("Infinite");
    let t = "Second-"@ + digits;
    assert(t.take(7) =~= "Second-"@);
    assert(t.skip(7) =~= digits);
    assert(t != "Infinite"@) by {
        if t.len() == 8 {
            assert(t[0] == 'S');
        }
    }
}

/// The code of a status line is its second field: after the protocol and
/// a space, up to the next space.
pub proof fn law_status_line(proto: Seq<char>, code: Seq<char>, rest: Seq<char>)
    requires
        forall|i: int| 0 <= i < proto.len() ==> proto[i] != ' ',
        forall|i: int| 0 <= i < code.len() ==> code[i] != ' ',
    ensures
        status_of(proto + seq![' '] + code + seq![' '] + rest) == status_code_of(vstd::utf8::encode_utf8(code)),
        status_of(proto + seq![' '] + code) == status_code_of(vstd::utf8::encode_utf8(code)),
{
    let t = proto + seq![' '] + code + seq![' '] + rest;
    let u = proto + seq![' '] + code;
    let a: int = proto.len() as int;
    let b: int = a + 1 + code.len() as int;
    lemma_space_prefix(t, 0, a);
    lemma_space_prefix(t, a + 1, b);
    lemma_space_prefix(u, 0, a);
    lemma_space_prefix(u, a + 1, b);
    assert(t.subrange(a + 1, b) =~= code);
    assert(u.subrange(a + 1, b) =~= code);
}

/// The first space at or after `i` is at `j` when none lies between and
/// `j` is a space or the end.
proof fn lemma_space_prefix(t: Seq<char>, i: int, j: int)
    requires
        0 <= i <= j <= t.len(),
        forall|k: int| i <= k < j ==> t[k] != ' ',
        j < t.len() ==> t[j] == ' ',
    ensures
        space_from(t, i) == j,
    decreases j - i,
{
    if i < j {
        lemma_space_prefix(t, i + 1, j);
    }
}

} // verus!
