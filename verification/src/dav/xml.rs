//! The XML documents of WebDAV as sequences of events, a cursor that reads
//! them into the data model, and the events an encoder writes.
use vstd::prelude::*;

use super::error::ParsingError;
use crate::text::{push_str, str_eq};

verus! {

/// The DAV: namespace.
pub const DAV_URN: &'static str = "DAV:";
/// The CalDAV namespace.
pub const CAL_URN: &'static str = "urn:ietf:params:xml:ns:caldav";
/// The CardDAV namespace.
pub const CARD_URN: &'static str = "urn:ietf:params:xml:ns:carddav";

/// A value that an XML attribute may leave out, in which case the RFC's
/// default applies.
#[derive(Debug, PartialEq, Clone)]
pub enum WithDefault<T> {
    Default,
    Value(T),
}

impl<T> WithDefault<T> {
    /// An explicit value.
    pub fn new(v: T) -> (r: Self)
        ensures
            r == WithDefault::Value(v),
    {
        WithDefault::Value(v)
    }

    /// Builds the value from an optional attribute.
    pub fn from_opt(v: Option<T>) -> (r: Self)
        ensures
            match v {
                Some(x) => r == WithDefault::Value(x),
                None => r == WithDefault::<T>::Default,
            },
    {
        match v {
            Some(x) => WithDefault::Value(x),
            None => WithDefault::Default,
        }
    }

    /// The explicit value, if one was given.
    pub fn explicit(&self) -> (r: Option<&T>)
        ensures
            match self {
                WithDefault::Value(x) => r == Some(x),
                WithDefault::Default => r is None,
            },
    {
        match self {
            WithDefault::Value(x) => Some(x),
            WithDefault::Default => None,
        }
    }
}

impl<T> Default for WithDefault<T> {
    /// No explicit value: the RFC's default applies.
    fn default() -> (r: Self)
        ensures
            r == WithDefault::<T>::Default,
    {
        WithDefault::Default
    }
}

// ---- Reading ----

/// An element name: as written (`prefix:local`), the namespace its prefix
/// resolves to where it is bound, and the local part.
#[derive(Debug, PartialEq, Clone)]
pub struct XmlName {
    pub qname: String,
    pub ns: Option<String>,
    pub local: String,
}

/// An opening tag: its name and its attributes in document order, each
/// with its unescaped value (none where the value does not unescape). The
/// list stops before the first malformed attribute.
#[derive(Debug, PartialEq, Clone)]
pub struct XmlTag {
    pub name: XmlName,
    pub attrs: Vec<(String, Option<String>)>,
}

/// One event of a document, as an XML reader gives them in order.
#[derive(Debug, PartialEq, Clone)]
pub enum XmlEvent {
    /// An opening tag.
    Start(XmlTag),
    /// A self-closing tag.
    Empty(XmlTag),
    /// A closing tag.
    End(XmlName),
    /// Text, unescaped; none where it does not unescape.
    Text(Option<String>),
    /// A CDATA section; none where it is not UTF-8.
    CData(Option<String>),
    /// A comment, declaration, processing instruction or doctype.
    Other,
    /// The end of the document.
    Eof,
    /// The reader failed here on malformed markup.
    Fail,
}

/// Whether an event ends the sequence.
pub open spec fn is_terminal(e: XmlEvent) -> bool {
    e is Eof || e is Fail
}

/// The state of a reader over a sequence of events: the position of the
/// current event, the position of the event read before it (none before
/// the first read), and the positions of the opened elements.
pub struct RState {
    pub pos: int,
    pub prev: Option<int>,
    pub parents: Seq<int>,
}

/// Whether a sequence of events is a document as a reader gives it: it
/// ends with the end of the document or a failure.
pub open spec fn doc_ok(evs: Seq<XmlEvent>) -> bool {
    evs.len() > 0 && is_terminal(evs.last())
}

/// Whether a reader state fits a sequence of events: the current event is
/// no failure, and the other positions are events of the sequence.
pub open spec fn state_ok(evs: Seq<XmlEvent>, st: RState) -> bool {
    &&& doc_ok(evs)
    &&& 0 <= st.pos < evs.len()
    &&& !(evs[st.pos] is Fail)
    &&& (st.prev matches Some(p) ==> 0 <= p < evs.len())
    &&& forall|i: int| 0 <= i < st.parents.len() ==> 0 <= #[trigger] st.parents[i] < evs.len()
}

/// Moving to the next event: the position of the event left behind, or
/// the reader's failure. At the end of the document the end repeats.
pub open spec fn next_spec(evs: Seq<XmlEvent>, st: RState) -> (Result<int, ParsingError>, RState) {
    if evs[st.pos] is Eof {
        (Ok(st.pos), RState { pos: st.pos, prev: Some(st.pos), parents: st.parents })
    } else if evs[st.pos + 1] is Fail {
        (Err(ParsingError::QuickXml), st)
    } else {
        (Ok(st.pos), RState { pos: st.pos + 1, prev: Some(st.pos), parents: st.parents })
    }
}

/// The position of the closing tag named `qname` that ends the element
/// opened before `i`, counting nested elements of the same name; a failure
/// or the end of the document first is an error.
pub open spec fn read_to_end(evs: Seq<XmlEvent>, i: int, qname: Seq<char>, depth: nat) -> Result<int, ParsingError>
    decreases evs.len() - i,
{
    if i < 0 || i >= evs.len() {
        Err(ParsingError::QuickXml)
    } else {
        match evs[i] {
            XmlEvent::Fail => Err(ParsingError::QuickXml),
            XmlEvent::Eof => Err(ParsingError::QuickXml),
            XmlEvent::Start(t) => if t.name.qname@ == qname {
                read_to_end(evs, i + 1, qname, depth + 1)
            } else {
                read_to_end(evs, i + 1, qname, depth)
            },
            XmlEvent::End(n) => if n.qname@ == qname {
                if depth == 0 {
                    Ok(i)
                } else {
                    read_to_end(evs, i + 1, qname, (depth - 1) as nat)
                }
            } else {
                read_to_end(evs, i + 1, qname, depth)
            },
            _ => read_to_end(evs, i + 1, qname, depth),
        }
    }
}

/// Skipping the current node: an element up to its closing tag, any other
/// event by itself. A closing tag or the end of the document cannot be
/// skipped.
pub open spec fn skip_spec(evs: Seq<XmlEvent>, st: RState) -> (Result<int, ParsingError>, RState) {
    match evs[st.pos] {
        XmlEvent::Start(t) => match read_to_end(evs, st.pos + 1, t.name.qname@, 0) {
            Err(e) => (Err(e), st),
            Ok(e) => if evs[e + 1] is Fail {
                (Err(ParsingError::QuickXml), st)
            } else {
                (Ok(st.pos), RState { pos: e + 1, prev: Some(st.pos), parents: st.parents })
            },
        },
        XmlEvent::End(_) => (Err(ParsingError::WrongToken), st),
        XmlEvent::Eof => (Err(ParsingError::Eof), st),
        _ => next_spec(evs, st),
    }
}

/// The name of a tag event.
pub open spec fn tag_name(e: XmlEvent) -> Option<XmlName> {
    match e {
        XmlEvent::Start(t) => Some(t.name),
        XmlEvent::Empty(t) => Some(t.name),
        XmlEvent::End(n) => Some(n),
        _ => None,
    }
}

/// Whether an event is a tag in namespace `ns` with local name `key`.
pub open spec fn is_tag_spec(e: XmlEvent, ns: Seq<char>, key: Seq<char>) -> bool {
    match tag_name(e) {
        Some(n) => n.local@ == key && (n.ns matches Some(u) && u@ == ns),
        None => false,
    }
}

/// Whether the innermost opened element can have children: it was opened
/// by an opening tag, or nothing is open.
pub open spec fn parent_has_child_spec(evs: Seq<XmlEvent>, st: RState) -> bool {
    st.parents.len() == 0 || evs[st.parents.last()] is Start
}

/// Opening the element `ns:key` at the current event: a self-closing tag
/// stays current, an opening tag is moved past; anything else is
/// `Recoverable` and changes nothing.
pub open spec fn open_spec(evs: Seq<XmlEvent>, st: RState, ns: Seq<char>, key: Seq<char>) -> (
    Result<int, ParsingError>,
    RState,
) {
    let cur = evs[st.pos];
    if cur is Empty && is_tag_spec(cur, ns, key) {
        (Ok(st.pos), RState { pos: st.pos, prev: Some(st.pos), parents: st.parents.push(st.pos) })
    } else {
        open_start_spec(evs, st, ns, key)
    }
}

/// Opening the element `ns:key` only when it is written with an opening
/// tag.
pub open spec fn open_start_spec(evs: Seq<XmlEvent>, st: RState, ns: Seq<char>, key: Seq<char>) -> (
    Result<int, ParsingError>,
    RState,
) {
    let cur = evs[st.pos];
    if cur is Start && is_tag_spec(cur, ns, key) {
        match next_spec(evs, st) {
            (Err(e), s) => (Err(e), s),
            (Ok(v), s) => (Ok(v), RState { pos: s.pos, prev: s.prev, parents: s.parents.push(v) }),
        }
    } else {
        (Err(ParsingError::Recoverable), st)
    }
}

/// The state with the innermost opened element forgotten.
pub open spec fn pop_parent(st: RState) -> RState {
    RState {
        pos: st.pos,
        prev: st.prev,
        parents: if st.parents.len() > 0 {
            st.parents.drop_last()
        } else {
            st.parents
        },
    }
}

/// Closing the innermost element: its remaining children are skipped up
/// to its closing tag, which is moved past.
pub open spec fn close_loop(evs: Seq<XmlEvent>, st: RState) -> (Result<int, ParsingError>, RState)
    decreases evs.len() - st.pos,
{
    if 0 <= st.pos < evs.len() {
        match evs[st.pos] {
            XmlEvent::End(_) => next_spec(evs, pop_parent(st)),
            _ => match skip_spec(evs, st) {
                (Err(e), s) => (Err(e), s),
                (Ok(_), s) => if st.pos < s.pos <= evs.len() {
                    close_loop(evs, s)
                } else {
                    (Err(ParsingError::Eof), s)
                },
            },
        }
    } else {
        (Err(ParsingError::Eof), st)
    }
}

/// Closing the innermost element; a self-closing one is only moved past.
pub open spec fn close_spec(evs: Seq<XmlEvent>, st: RState) -> (Result<int, ParsingError>, RState) {
    if !parent_has_child_spec(evs, st) {
        next_spec(evs, pop_parent(st))
    } else {
        close_loop(evs, st)
    }
}

/// The text an event adds to the text of an element.
pub open spec fn text_of(e: XmlEvent) -> Seq<char> {
    match e {
        XmlEvent::CData(Some(s)) => s@,
        XmlEvent::Text(Some(s)) => s@,
        _ => Seq::empty(),
    }
}

/// Reading the text of the current element from the current event on,
/// after `acc`: text and CDATA are gathered up to the next tag.
pub open spec fn text_loop(evs: Seq<XmlEvent>, st: RState, acc: Seq<char>) -> (Result<Seq<char>, ParsingError>, RState)
    decreases evs.len() - st.pos,
{
    if 0 <= st.pos < evs.len() {
        match evs[st.pos] {
            XmlEvent::CData(None) => (Err(ParsingError::Utf8Error), st),
            XmlEvent::Text(None) => (Err(ParsingError::QuickXml), st),
            XmlEvent::Start(_) => (Ok(acc), st),
            XmlEvent::Empty(_) => (Ok(acc), st),
            XmlEvent::End(_) => (Ok(acc), st),
            XmlEvent::Eof => (Err(ParsingError::Eof), st),
            XmlEvent::Fail => (Err(ParsingError::QuickXml), st),
            ev => match next_spec(evs, st) {
                (Err(e), s) => (Err(e), s),
                (Ok(_), s) => if st.pos < s.pos <= evs.len() {
                    text_loop(evs, s, acc + text_of(ev))
                } else {
                    (Err(ParsingError::Eof), s)
                },
            },
        }
    } else {
        (Err(ParsingError::Eof), st)
    }
}

/// Reading the text of the current element; `Recoverable` inside a
/// self-closing element.
pub open spec fn tag_string_spec(evs: Seq<XmlEvent>, st: RState) -> (Result<Seq<char>, ParsingError>, RState) {
    if !parent_has_child_spec(evs, st) {
        (Err(ParsingError::Recoverable), st)
    } else {
        text_loop(evs, st, Seq::empty())
    }
}

/// The value of the attribute `key` in a list of attributes, if the first
/// attribute of that name unescapes.
pub open spec fn attr_of(attrs: Seq<(String, Option<String>)>, key: Seq<char>) -> Option<Seq<char>>
    decreases attrs.len(),
{
    if attrs.len() == 0 {
        None
    } else if attrs[0].0@ == key {
        match attrs[0].1 {
            Some(v) => Some(v@),
            None => None,
        }
    } else {
        attr_of(attrs.drop_first(), key)
    }
}

/// The attribute `key` of the event read before the current one.
pub open spec fn prev_attr_spec(evs: Seq<XmlEvent>, st: RState, key: Seq<char>) -> Option<Seq<char>> {
    match st.prev {
        Some(p) => match evs[p] {
            XmlEvent::Start(t) => attr_of(t.attrs@, key),
            XmlEvent::Empty(t) => attr_of(t.attrs@, key),
            _ => None,
        },
        None => None,
    }
}

/// The unit result of a step, from its spec result.
pub open spec fn unit_of(r: Result<int, ParsingError>) -> Result<(), ParsingError> {
    match r {
        Ok(_) => Ok(()),
        Err(e) => Err(e),
    }
}

/// A sequence of events made into a document: an end is added when it
/// has none.
pub open spec fn as_doc(evs: Seq<XmlEvent>) -> Seq<XmlEvent> {
    if doc_ok(evs) {
        evs
    } else {
        evs.push(XmlEvent::Eof)
    }
}

/// A cursor over the events of a document that decoders move through.
pub struct Reader {
    events: Vec<XmlEvent>,
    pos: usize,
    prev: Option<usize>,
    parents: Vec<usize>,
}

impl Reader {
    /// The events of the document.
    pub closed spec fn evs(&self) -> Seq<XmlEvent> {
        self.events@
    }

    /// Where the cursor stands.
    pub closed spec fn st(&self) -> RState {
        RState {
            pos: self.pos as int,
            prev: match self.prev {
                Some(p) => Some(p as int),
                None => None,
            },
            parents: self.parents@.map_values(|p: usize| p as int),
        }
    }

    /// Whether the cursor stands in its document.
    pub open spec fn wf(&self) -> bool {
        state_ok(self.evs(), self.st())
    }

    /// A cursor on the first event of a document; an end is added to a
    /// sequence that has none. A document whose first event is a failure
    /// does not open.
    pub fn new(events: Vec<XmlEvent>) -> (r: Result<Self, ParsingError>)
        ensures
            as_doc(events@)[0] is Fail ==> r == Err::<Self, ParsingError>(ParsingError::QuickXml),
            !(as_doc(events@)[0] is Fail) ==> (r matches Ok(rd) && rd.wf() && rd.evs() == as_doc(events@)
                && rd.st() == (RState { pos: 0, prev: None, parents: Seq::empty() })),
    {
        let mut events = events;
        let n = events.len();
        let terminal = n > 0 && match &events[n - 1] {
            XmlEvent::Eof => true,
            XmlEvent::Fail => true,
            _ => false,
        };
        if !terminal {
            events.push(XmlEvent::Eof);
        }
        if let XmlEvent::Fail = &events[0] {
            return Err(ParsingError::QuickXml);
        }
        let rd = Reader { events, pos: 0, prev: None, parents: Vec::new() };
        proof {
            assert(rd.st().parents =~= Seq::<int>::empty());
        }
        Ok(rd)
    }

    /// The current event.
    pub fn peek(&self) -> (r: &XmlEvent)
        requires
            self.wf(),
        ensures
            *r == self.evs()[self.st().pos],
    {
        &self.events[self.pos]
    }

    /// The positions of the opened elements, as a cursor state holds them.
    proof fn lemma_parents_push(&self, v: usize)
        ensures
            self.parents@.push(v).map_values(|p: usize| p as int) == self.st().parents.push(v as int),
    {
        assert(self.parents@.push(v).map_values(|p: usize| p as int) =~= self.st().parents.push(v as int));
    }

    /// Moves to the next event.
    fn next(&mut self) -> (r: Result<(), ParsingError>)
        requires
            old(self).wf(),
        ensures
            final(self).wf(),
            final(self).evs() == old(self).evs(),
            (r, final(self).st()) == (unit_of(next_spec(old(self).evs(), old(self).st()).0), next_spec(
                old(self).evs(),
                old(self).st(),
            ).1),
    {
        if let XmlEvent::Eof = &self.events[self.pos] {
            self.prev = Some(self.pos);
            return Ok(());
        }
        proof {
            assert(self.pos + 1 < self.events.len());
        }
        if let XmlEvent::Fail = &self.events[self.pos + 1] {
            return Err(ParsingError::QuickXml);
        }
        self.prev = Some(self.pos);
        self.pos = self.pos + 1;
        Ok(())
    }

    /// Whether the current event is the tag `ns:key`.
    fn is_tag(&self, ns: &str, key: &str) -> (r: bool)
        requires
            self.wf(),
        ensures
            r == is_tag_spec(self.evs()[self.st().pos], ns@, key@),
    {
        let name = match &self.events[self.pos] {
            XmlEvent::Start(t) => &t.name,
            XmlEvent::Empty(t) => &t.name,
            XmlEvent::End(n) => n,
            _ => return false,
        };
        if !str_eq(name.local.as_str(), key) {
            return false;
        }
        match &name.ns {
            Some(u) => str_eq(u.as_str(), ns),
            None => false,
        }
    }

    /// Whether the innermost opened element can have children.
    pub fn parent_has_child(&self) -> (r: bool)
        requires
            self.wf(),
        ensures
            r == parent_has_child_spec(self.evs(), self.st()),
    {
        let n = self.parents.len();
        if n == 0 {
            return true;
        }
        let p = self.parents[n - 1];
        proof {
            assert(self.st().parents.last() == p as int);
        }
        matches!(&self.events[p], XmlEvent::Start(_))
    }

    /// Forgets the innermost opened element.
    fn pop_parent(&mut self)
        requires
            old(self).wf(),
        ensures
            final(self).wf(),
            final(self).evs() == old(self).evs(),
            final(self).st() == pop_parent(old(self).st()),
    {
        let ghost before = self.parents@;
        self.parents.pop();
        proof {
            if before.len() > 0 {
                assert(self.parents@.map_values(|p: usize| p as int) =~= before.map_values(|p: usize| p as int).drop_last());
            } else {
                assert(self.parents@.map_values(|p: usize| p as int) =~= before.map_values(|p: usize| p as int));
            }
        }
    }

    /// The position of the closing tag named `qname` for the element opened
    /// before `start`.
    fn find_end(&self, start: usize, qname: &str) -> (r: Result<usize, ParsingError>)
        requires
            self.wf(),
            start <= self.evs().len(),
        ensures
            match read_to_end(self.evs(), start as int, qname@, 0) {
                Ok(e) => r == Ok::<usize, ParsingError>(e as usize),
                Err(x) => r == Err::<usize, ParsingError>(x),
            },
    {
        let n = self.events.len();
        let mut i = start;
        let mut depth: usize = 0;
        while i < n
            invariant
                start <= i <= n == self.evs().len(),
                depth <= i - start,
                read_to_end(self.evs(), i as int, qname@, depth as nat) == read_to_end(self.evs(), start as int, qname@, 0),
            decreases n - i,
        {
            match &self.events[i] {
                XmlEvent::Fail => return Err(ParsingError::QuickXml),
                XmlEvent::Eof => return Err(ParsingError::QuickXml),
                XmlEvent::Start(t) => {
                    if str_eq(t.name.qname.as_str(), qname) {
                        depth = depth + 1;
                    }
                },
                XmlEvent::End(nm) => {
                    if str_eq(nm.qname.as_str(), qname) {
                        if depth == 0 {
                            return Ok(i);
                        }
                        depth = depth - 1;
                    }
                },
                _ => {},
            }
            i = i + 1;
        }
        Err(ParsingError::QuickXml)
    }

    /// Skips the current node: an element up to its closing tag, any other
    /// event by itself.
    pub fn skip(&mut self) -> (r: Result<(), ParsingError>)
        requires
            old(self).wf(),
        ensures
            final(self).wf(),
            final(self).evs() == old(self).evs(),
            r == unit_of(skip_spec(old(self).evs(), old(self).st()).0),
            final(self).st() == skip_spec(old(self).evs(), old(self).st()).1,
    {
        proof {
            lemma_skip(self.evs(), self.st());
        }
        let n = self.events.len();
        let found = match &self.events[self.pos] {
            XmlEvent::Start(t) => {
                assert(self.pos + 1 < n);
                Some(self.find_end(self.pos + 1, t.name.qname.as_str()))
            },
            XmlEvent::End(_) => return Err(ParsingError::WrongToken),
            XmlEvent::Eof => return Err(ParsingError::Eof),
            _ => None,
        };
        match found {
            None => self.next(),
            Some(Err(e)) => Err(e),
            Some(Ok(e)) => {
                proof {
                    lemma_read_to_end(self.evs(), self.pos + 1, match self.evs()[self.pos as int] {
                        XmlEvent::Start(t) => t.name.qname@,
                        _ => Seq::empty(),
                    }, 0);
                }
                assert(e + 1 < n);
                if let XmlEvent::Fail = &self.events[e + 1] {
                    return Err(ParsingError::QuickXml);
                }
                self.prev = Some(self.pos);
                self.pos = e + 1;
                Ok(())
            },
        }
    }

    /// Opens the element `ns:key` if it is written with an opening tag.
    pub fn open_start(&mut self, ns: &str, key: &str) -> (r: Result<(), ParsingError>)
        requires
            old(self).wf(),
        ensures
            final(self).wf(),
            final(self).evs() == old(self).evs(),
            r == unit_of(open_start_spec(old(self).evs(), old(self).st(), ns@, key@).0),
            final(self).st() == open_start_spec(old(self).evs(), old(self).st(), ns@, key@).1,
            final(self).st().pos >= old(self).st().pos,
    {
        let is_start = matches!(&self.events[self.pos], XmlEvent::Start(_));
        if !(is_start && self.is_tag(ns, key)) {
            return Err(ParsingError::Recoverable);
        }
        let v = self.pos;
        proof {
            lemma_next(self.evs(), self.st());
        }
        match self.next() {
            Err(e) => Err(e),
            Ok(()) => {
                proof {
                    self.lemma_parents_push(v);
                }
                self.parents.push(v);
                Ok(())
            },
        }
    }

    /// Opens the element `ns:key` at the current event; anything else is
    /// `Recoverable` and changes nothing.
    pub fn open(&mut self, ns: &str, key: &str) -> (r: Result<(), ParsingError>)
        requires
            old(self).wf(),
        ensures
            final(self).wf(),
            final(self).evs() == old(self).evs(),
            r == unit_of(open_spec(old(self).evs(), old(self).st(), ns@, key@).0),
            final(self).st() == open_spec(old(self).evs(), old(self).st(), ns@, key@).1,
            final(self).st().pos >= old(self).st().pos,
    {
        let is_empty = matches!(&self.events[self.pos], XmlEvent::Empty(_));
        if is_empty && self.is_tag(ns, key) {
            let v = self.pos;
            proof {
                self.lemma_parents_push(v);
            }
            self.prev = Some(v);
            self.parents.push(v);
            return Ok(());
        }
        self.open_start(ns, key)
    }

    /// Opens the element `ns:key` if it is the current one: whether it was.
    pub fn maybe_open(&mut self, ns: &str, key: &str) -> (r: Result<bool, ParsingError>)
        requires
            old(self).wf(),
        ensures
            final(self).wf(),
            final(self).evs() == old(self).evs(),
            r == match open_spec(old(self).evs(), old(self).st(), ns@, key@).0 {
                Ok(_) => Ok(true),
                Err(ParsingError::Recoverable) => Ok(false),
                Err(e) => Err(e),
            },
            final(self).st() == open_spec(old(self).evs(), old(self).st(), ns@, key@).1,
            final(self).st().pos >= old(self).st().pos,
    {
        match self.open(ns, key) {
            Ok(()) => Ok(true),
            Err(ParsingError::Recoverable) => Ok(false),
            Err(e) => Err(e),
        }
    }

    /// Opens the element `ns:key` if it is the current one and written with
    /// an opening tag: whether it was.
    pub fn maybe_open_start(&mut self, ns: &str, key: &str) -> (r: Result<bool, ParsingError>)
        requires
            old(self).wf(),
        ensures
            final(self).wf(),
            final(self).evs() == old(self).evs(),
            r == match open_start_spec(old(self).evs(), old(self).st(), ns@, key@).0 {
                Ok(_) => Ok(true),
                Err(ParsingError::Recoverable) => Ok(false),
                Err(e) => Err(e),
            },
            final(self).st() == open_start_spec(old(self).evs(), old(self).st(), ns@, key@).1,
            final(self).st().pos >= old(self).st().pos,
    {
        match self.open_start(ns, key) {
            Ok(()) => Ok(true),
            Err(ParsingError::Recoverable) => Ok(false),
            Err(e) => Err(e),
        }
    }

    /// Closes the innermost opened element, skipping what remains of it.
    pub fn close(&mut self) -> (r: Result<(), ParsingError>)
        requires
            old(self).wf(),
        ensures
            final(self).wf(),
            final(self).evs() == old(self).evs(),
            r == unit_of(close_spec(old(self).evs(), old(self).st()).0),
            final(self).st() == close_spec(old(self).evs(), old(self).st()).1,
            final(self).st().pos >= old(self).st().pos,
            r is Ok ==> final(self).st().pos > old(self).st().pos || old(self).evs()[old(self).st().pos] is Eof,
    {
        proof {
            lemma_close(self.evs(), self.st());
        }
        if !self.parent_has_child() {
            self.pop_parent();
            proof {
                lemma_next(self.evs(), self.st());
            }
            return self.next();
        }
        let ghost evs = self.evs();
        let ghost st0 = self.st();
        loop
            invariant
                self.wf(),
                self.evs() == evs,
                evs == old(self).evs(),
                st0 == old(self).st(),
                parent_has_child_spec(evs, st0),
                close_loop(evs, st0).1.pos >= st0.pos,
                close_loop(evs, st0).0 is Ok ==> close_loop(evs, st0).1.pos > st0.pos,
                close_loop(evs, self.st()) == close_loop(evs, st0),
            decreases evs.len() - self.st().pos,
        {
            if let XmlEvent::End(_) = &self.events[self.pos] {
                self.pop_parent();
                proof {
                    lemma_next(self.evs(), self.st());
                }
                return self.next();
            }
            let ghost before = self.st();
            proof {
                lemma_skip(evs, before);
            }
            match self.skip() {
                Err(e) => return Err(e),
                Ok(()) => {},
            }
        }
    }

    /// Reads the text of the current element up to its next tag;
    /// `Recoverable` inside a self-closing element.
    pub fn tag_string(&mut self) -> (r: Result<String, ParsingError>)
        requires
            old(self).wf(),
        ensures
            final(self).wf(),
            final(self).evs() == old(self).evs(),
            match tag_string_spec(old(self).evs(), old(self).st()).0 {
                Ok(t) => r matches Ok(s) && s@ == t,
                Err(e) => r == Err::<String, ParsingError>(e),
            },
            final(self).st() == tag_string_spec(old(self).evs(), old(self).st()).1,
            final(self).st().pos >= old(self).st().pos,
            r is Ok && (old(self).evs()[old(self).st().pos] is Text || old(self).evs()[old(self).st().pos] is CData)
                ==> final(self).st().pos > old(self).st().pos,
    {
        proof {
            lemma_text_loop(self.evs(), self.st(), Seq::empty());
        }
        if !self.parent_has_child() {
            return Err(ParsingError::Recoverable);
        }
        let ghost evs = self.evs();
        let ghost st0 = self.st();
        let mut acc = String::new();
        proof {
            assert(acc@ == Seq::<char>::empty());
        }
        loop
            invariant
                self.wf(),
                self.evs() == evs,
                evs == old(self).evs(),
                st0 == old(self).st(),
                parent_has_child_spec(evs, st0),
                text_loop(evs, st0, Seq::empty()).1.pos >= st0.pos,
                text_loop(evs, st0, Seq::empty()).0 is Ok && (evs[st0.pos] is Text || evs[st0.pos] is CData)
                    ==> text_loop(evs, st0, Seq::empty()).1.pos > st0.pos,
                text_loop(evs, self.st(), acc@) == text_loop(evs, st0, Seq::empty()),
            decreases evs.len() - self.st().pos,
        {
            let ghost before = acc@;
            match &self.events[self.pos] {
                XmlEvent::CData(Some(t)) => push_str(&mut acc, t.as_str()),
                XmlEvent::Text(Some(t)) => push_str(&mut acc, t.as_str()),
                XmlEvent::CData(None) => return Err(ParsingError::Utf8Error),
                XmlEvent::Text(None) => return Err(ParsingError::QuickXml),
                XmlEvent::Start(_) => return Ok(acc),
                XmlEvent::Empty(_) => return Ok(acc),
                XmlEvent::End(_) => return Ok(acc),
                XmlEvent::Eof => return Err(ParsingError::Eof),
                XmlEvent::Fail => return Err(ParsingError::QuickXml),
                XmlEvent::Other => {},
            }
            proof {
                assert(acc@ == before + text_of(evs[self.st().pos]));
                lemma_next(evs, self.st());
            }
            match self.next() {
                Err(e) => return Err(e),
                Ok(()) => {},
            }
        }
    }

    /// The value of the attribute `key` of the event read before the current
    /// one, if it has one that unescapes.
    pub fn prev_attr(&self, key: &str) -> (r: Option<String>)
        requires
            self.wf(),
        ensures
            match prev_attr_spec(self.evs(), self.st(), key@) {
                Some(v) => r matches Some(s) && s@ == v,
                None => r is None,
            },
    {
        let p = match self.prev {
            Some(p) => p,
            None => return None,
        };
        let attrs = match &self.events[p] {
            XmlEvent::Start(t) => &t.attrs,
            XmlEvent::Empty(t) => &t.attrs,
            _ => return None,
        };
        let mut i: usize = 0;
        proof {
            assert(attrs@.skip(0) == attrs@);
            assert(prev_attr_spec(self.evs(), self.st(), key@) == attr_of(attrs@, key@));
        }
        while i < attrs.len()
            invariant
                i <= attrs@.len(),
                attr_of(attrs@.skip(i as int), key@) == attr_of(attrs@, key@),
                attr_of(attrs@, key@) == prev_attr_spec(self.evs(), self.st(), key@),
            decreases attrs@.len() - i,
        {
            proof {
                assert(attrs@.skip(i as int)[0] == attrs@[i as int]);
                assert(attrs@.skip(i as int).drop_first() == attrs@.skip(i + 1));
            }
            if str_eq(attrs[i].0.as_str(), key) {
                proof {
                    assert(attr_of(attrs@.skip(i as int), key@) == match attrs@[i as int].1 {
                        Some(v) => Some(v@),
                        None => None,
                    });
                }
                return match &attrs[i].1 {
                    Some(v) => Some(copy_string(v)),
                    None => None,
                };
            }
            i = i + 1;
        }
        proof {
            assert(attrs@.skip(i as int).len() == 0);
        }
        None
    }
}

/// A copy of a string.
fn copy_string(s: &String) -> (r: String)
    ensures
        r == *s,
{
    s.clone()
}

/// Closing keeps the cursor in its document and does not move it back;
/// when it succeeds it moves forward, unless it stood at the end.
pub proof fn lemma_close_loop(evs: Seq<XmlEvent>, st: RState)
    requires
        state_ok(evs, st),
    ensures
        state_ok(evs, close_loop(evs, st).1),
        close_loop(evs, st).1.pos >= st.pos,
        close_loop(evs, st).0 is Ok ==> close_loop(evs, st).1.pos > st.pos,
    decreases evs.len() - st.pos,
{
    match evs[st.pos] {
        XmlEvent::End(_) => {
            lemma_next(evs, pop_parent(st));
        },
        _ => {
            lemma_skip(evs, st);
            let s = skip_spec(evs, st).1;
            if skip_spec(evs, st).0 is Ok && st.pos < s.pos <= evs.len() {
                lemma_close_loop(evs, s);
            }
        },
    }
}

/// See `lemma_close_loop`.
pub proof fn lemma_close(evs: Seq<XmlEvent>, st: RState)
    requires
        state_ok(evs, st),
    ensures
        state_ok(evs, close_spec(evs, st).1),
        close_spec(evs, st).1.pos >= st.pos,
        close_spec(evs, st).0 is Ok ==> close_spec(evs, st).1.pos > st.pos || evs[st.pos] is Eof,
{
    if !parent_has_child_spec(evs, st) {
        lemma_next(evs, pop_parent(st));
    } else {
        lemma_close_loop(evs, st);
    }
}

/// Reading text keeps the cursor in its document and does not move it back.
pub proof fn lemma_text_loop(evs: Seq<XmlEvent>, st: RState, acc: Seq<char>)
    requires
        state_ok(evs, st),
    ensures
        state_ok(evs, text_loop(evs, st, acc).1),
        text_loop(evs, st, acc).1.pos >= st.pos,
        text_loop(evs, st, acc).0 is Ok && (evs[st.pos] is Text || evs[st.pos] is CData) ==> text_loop(
            evs,
            st,
            acc,
        ).1.pos > st.pos,
    decreases evs.len() - st.pos,
{
    match evs[st.pos] {
        XmlEvent::CData(Some(_)) => {
            lemma_next(evs, st);
            let s = next_spec(evs, st).1;
            if next_spec(evs, st).0 is Ok && st.pos < s.pos <= evs.len() {
                lemma_text_loop(evs, s, acc + text_of(evs[st.pos]));
            }
        },
        XmlEvent::Text(Some(_)) => {
            lemma_next(evs, st);
            let s = next_spec(evs, st).1;
            if next_spec(evs, st).0 is Ok && st.pos < s.pos <= evs.len() {
                lemma_text_loop(evs, s, acc + text_of(evs[st.pos]));
            }
        },
        XmlEvent::Other => {
            lemma_next(evs, st);
            let s = next_spec(evs, st).1;
            if next_spec(evs, st).0 is Ok && st.pos < s.pos <= evs.len() {
                lemma_text_loop(evs, s, acc + text_of(evs[st.pos]));
            }
        },
        _ => {},
    }
}

/// Where a closing tag is found, it is a closing tag of the sequence.
proof fn lemma_read_to_end(evs: Seq<XmlEvent>, i: int, qname: Seq<char>, depth: nat)
    ensures
        read_to_end(evs, i, qname, depth) matches Ok(e) ==> i <= e < evs.len() && evs[e] is End,
    decreases evs.len() - i,
{
    if 0 <= i < evs.len() {
        match evs[i] {
            XmlEvent::Start(t) => {
                lemma_read_to_end(evs, i + 1, qname, depth + 1);
                lemma_read_to_end(evs, i + 1, qname, depth);
            },
            XmlEvent::End(n) => {
                if depth > 0 {
                    lemma_read_to_end(evs, i + 1, qname, (depth - 1) as nat);
                }
                lemma_read_to_end(evs, i + 1, qname, depth);
            },
            _ => {
                lemma_read_to_end(evs, i + 1, qname, depth);
            },
        }
    }
}

/// A step keeps the cursor in its document and moves it forward.
pub proof fn lemma_next(evs: Seq<XmlEvent>, st: RState)
    requires
        state_ok(evs, st),
    ensures
        state_ok(evs, next_spec(evs, st).1),
        next_spec(evs, st).1.parents == st.parents,
        next_spec(evs, st).1.pos >= st.pos,
        next_spec(evs, st).0 is Ok && !(evs[st.pos] is Eof) ==> next_spec(evs, st).1.pos == st.pos + 1,
        next_spec(evs, st).0 is Err ==> next_spec(evs, st).1 == st,
{
}

/// Skipping keeps the cursor in its document, and moves it forward when it
/// succeeds.
pub proof fn lemma_skip(evs: Seq<XmlEvent>, st: RState)
    requires
        state_ok(evs, st),
    ensures
        state_ok(evs, skip_spec(evs, st).1),
        skip_spec(evs, st).1.parents == st.parents,
        skip_spec(evs, st).0 is Ok ==> st.pos < skip_spec(evs, st).1.pos,
        skip_spec(evs, st).0 is Err ==> skip_spec(evs, st).1 == st,
{
    match evs[st.pos] {
        XmlEvent::Start(t) => {
            lemma_read_to_end(evs, st.pos + 1, t.name.qname@, 0);
        },
        _ => {},
    }
}

// ---- Decoding ----

/// A decoded value by its view, or the failure.
pub open spec fn res_view<T: View>(r: Result<T, ParsingError>) -> Result<T::V, ParsingError> {
    match r {
        Ok(v) => Ok(v@),
        Err(e) => Err(e),
    }
}

/// A value that reads from the events of a document.
pub trait QRead: Sized + View {
    /// What reading a value at a cursor state gives (the value's view, or
    /// the failure) and where the cursor ends.
    spec fn qread_spec(evs: Seq<XmlEvent>, st: RState) -> (Result<Self::V, ParsingError>, RState);

    /// Reads a value at the cursor; `Recoverable` when the current event
    /// does not start one.
    fn qread(xml: &mut Reader) -> (r: Result<Self, ParsingError>)
        requires
            old(xml).wf(),
        ensures
            final(xml).wf(),
            final(xml).evs() == old(xml).evs(),
            res_view(r) == Self::qread_spec(old(xml).evs(), old(xml).st()).0,
            final(xml).st() == Self::qread_spec(old(xml).evs(), old(xml).st()).1,
            final(xml).st().pos >= old(xml).st().pos,
            r is Ok ==> final(xml).st().pos > old(xml).st().pos,
    ;
}

/// Trying values at successive nodes, skipping each node where none
/// starts, until one reads or fails otherwise.
pub open spec fn find_loop<N: QRead>(evs: Seq<XmlEvent>, st: RState) -> (Result<N::V, ParsingError>, RState)
    decreases evs.len() - st.pos,
{
    match N::qread_spec(evs, st) {
        (Err(ParsingError::Recoverable), s1) => if 0 <= s1.pos < evs.len() {
            match skip_spec(evs, s1) {
                (Err(e), s2) => (Err(e), s2),
                (Ok(_), s2) => if st.pos < s2.pos <= evs.len() {
                    find_loop::<N>(evs, s2)
                } else {
                    (Err(ParsingError::Eof), s2)
                },
            }
        } else {
            (Err(ParsingError::Eof), s1)
        },
        other => other,
    }
}

/// The first value among the children of the current element, skipping
/// the nodes where none starts; `Recoverable` inside a self-closing element.
pub open spec fn find_spec<N: QRead>(evs: Seq<XmlEvent>, st: RState) -> (Result<N::V, ParsingError>, RState) {
    if !parent_has_child_spec(evs, st) {
        (Err(ParsingError::Recoverable), st)
    } else {
        find_loop::<N>(evs, st)
    }
}

/// Like `find_loop`, but none when the element closes first.
pub open spec fn maybe_find_loop<N: QRead>(evs: Seq<XmlEvent>, st: RState) -> (
    Result<Option<N::V>, ParsingError>,
    RState,
)
    decreases evs.len() - st.pos,
{
    match N::qread_spec(evs, st) {
        (Ok(v), s1) => (Ok(Some(v)), s1),
        (Err(ParsingError::Recoverable), s1) => if 0 <= s1.pos < evs.len() {
            if evs[s1.pos] is End {
                (Ok(None), s1)
            } else {
                match skip_spec(evs, s1) {
                    (Err(e), s2) => (Err(e), s2),
                    (Ok(_), s2) => if st.pos < s2.pos <= evs.len() {
                        maybe_find_loop::<N>(evs, s2)
                    } else {
                        (Err(ParsingError::Eof), s2)
                    },
                }
            }
        } else {
            (Err(ParsingError::Eof), s1)
        },
        (Err(e), s1) => (Err(e), s1),
    }
}

/// The first value among the children of the current element, if any.
pub open spec fn maybe_find_spec<N: QRead>(evs: Seq<XmlEvent>, st: RState) -> (
    Result<Option<N::V>, ParsingError>,
    RState,
) {
    if !parent_has_child_spec(evs, st) {
        (Ok(None), st)
    } else {
        maybe_find_loop::<N>(evs, st)
    }
}

/// All the values among the children of the current element from the
/// current event on, after `acc`, skipping the other nodes.
pub open spec fn collect_loop<N: QRead>(evs: Seq<XmlEvent>, st: RState, acc: Seq<N::V>) -> (
    Result<Seq<N::V>, ParsingError>,
    RState,
)
    decreases evs.len() - st.pos,
{
    match N::qread_spec(evs, st) {
        (Ok(v), s1) => if st.pos < s1.pos <= evs.len() {
            collect_loop::<N>(evs, s1, acc.push(v))
        } else {
            (Err(ParsingError::Eof), s1)
        },
        (Err(ParsingError::Recoverable), s1) => if 0 <= s1.pos < evs.len() {
            if evs[s1.pos] is End {
                (Ok(acc), s1)
            } else {
                match skip_spec(evs, s1) {
                    (Err(e), s2) => (Err(e), s2),
                    (Ok(_), s2) => if st.pos < s2.pos <= evs.len() {
                        collect_loop::<N>(evs, s2, acc)
                    } else {
                        (Err(ParsingError::Eof), s2)
                    },
                }
            }
        } else {
            (Err(ParsingError::Eof), s1)
        },
        (Err(e), s1) => (Err(e), s1),
    }
}

/// All the values among the children of the current element.
pub open spec fn collect_spec<N: QRead>(evs: Seq<XmlEvent>, st: RState) -> (Result<Seq<N::V>, ParsingError>, RState) {
    if !parent_has_child_spec(evs, st) {
        (Ok(Seq::empty()), st)
    } else {
        collect_loop::<N>(evs, st, Seq::empty())
    }
}

/// Reading a value into an optional slot: the slot and the flag are set
/// when one reads; `Recoverable` leaves them.
pub open spec fn maybe_read_spec<N: QRead>(evs: Seq<XmlEvent>, st: RState, t: Option<N::V>, dirty: bool) -> (
    Result<(), ParsingError>,
    RState,
    Option<N::V>,
    bool,
) {
    if !parent_has_child_spec(evs, st) {
        (Ok(()), st, t, dirty)
    } else {
        match N::qread_spec(evs, st) {
            (Ok(v), s1) => (Ok(()), s1, Some(v), true),
            (Err(ParsingError::Recoverable), s1) => (Ok(()), s1, t, dirty),
            (Err(e), s1) => (Err(e), s1, t, dirty),
        }
    }
}

/// Reading a value onto a list: the value is pushed and the flag set when
/// one reads; `Recoverable` leaves them.
pub open spec fn maybe_push_spec<N: QRead>(evs: Seq<XmlEvent>, st: RState, t: Seq<N::V>, dirty: bool) -> (
    Result<(), ParsingError>,
    RState,
    Seq<N::V>,
    bool,
) {
    if !parent_has_child_spec(evs, st) {
        (Ok(()), st, t, dirty)
    } else {
        match N::qread_spec(evs, st) {
            (Ok(v), s1) => (Ok(()), s1, t.push(v), true),
            (Err(ParsingError::Recoverable), s1) => (Ok(()), s1, t, dirty),
            (Err(e), s1) => (Err(e), s1, t, dirty),
        }
    }
}

/// The view of an optional value.
pub open spec fn opt_view<T: View>(o: Option<T>) -> Option<T::V> {
    match o {
        Some(x) => Some(x@),
        None => None,
    }
}

/// The views of a list of values.
pub open spec fn views<N: View>(v: Seq<N>) -> Seq<N::V> {
    v.map_values(|x: N| x@)
}

impl Reader {
    /// Reads the first value among the children of the current element.
    pub fn find<N: QRead>(&mut self) -> (r: Result<N, ParsingError>)
        requires
            old(self).wf(),
        ensures
            final(self).wf(),
            final(self).evs() == old(self).evs(),
            res_view(r) == find_spec::<N>(old(self).evs(), old(self).st()).0,
            final(self).st() == find_spec::<N>(old(self).evs(), old(self).st()).1,
            final(self).st().pos >= old(self).st().pos,
            r is Ok ==> final(self).st().pos > old(self).st().pos,
    {
        if !self.parent_has_child() {
            return Err(ParsingError::Recoverable);
        }
        let ghost evs = self.evs();
        let ghost st0 = self.st();
        loop
            invariant
                self.wf(),
                self.evs() == evs,
                evs == old(self).evs(),
                st0 == old(self).st(),
                parent_has_child_spec(evs, st0),
                self.st().pos >= st0.pos,
                find_loop::<N>(evs, self.st()) == find_loop::<N>(evs, st0),
            decreases evs.len() - self.st().pos,
        {
            let ghost here = self.st();
            match N::qread(self) {
                Err(ParsingError::Recoverable) => {},
                other => return other,
            }
            proof {
                lemma_skip(evs, self.st());
            }
            match self.skip() {
                Err(e) => return Err(e),
                Ok(()) => {},
            }
            assert(here.pos < self.st().pos);
        }
    }

    /// Reads the first value among the children of the current element, if
    /// one comes before the element closes.
    pub fn maybe_find<N: QRead>(&mut self) -> (r: Result<Option<N>, ParsingError>)
        requires
            old(self).wf(),
        ensures
            final(self).wf(),
            final(self).evs() == old(self).evs(),
            match r {
                Ok(Some(v)) => maybe_find_spec::<N>(old(self).evs(), old(self).st()).0 == Ok::<
                    Option<N::V>,
                    ParsingError,
                >(Some(v@)),
                Ok(None) => maybe_find_spec::<N>(old(self).evs(), old(self).st()).0 == Ok::<
                    Option<N::V>,
                    ParsingError,
                >(None),
                Err(e) => maybe_find_spec::<N>(old(self).evs(), old(self).st()).0 == Err::<
                    Option<N::V>,
                    ParsingError,
                >(e),
            },
            final(self).st() == maybe_find_spec::<N>(old(self).evs(), old(self).st()).1,
            final(self).st().pos >= old(self).st().pos,
            r matches Ok(Some(_)) ==> final(self).st().pos > old(self).st().pos,
    {
        if !self.parent_has_child() {
            return Ok(None);
        }
        let ghost evs = self.evs();
        let ghost st0 = self.st();
        loop
            invariant
                self.wf(),
                self.evs() == evs,
                evs == old(self).evs(),
                st0 == old(self).st(),
                parent_has_child_spec(evs, st0),
                self.st().pos >= st0.pos,
                maybe_find_loop::<N>(evs, self.st()) == maybe_find_loop::<N>(evs, st0),
            decreases evs.len() - self.st().pos,
        {
            let ghost here = self.st();
            match N::qread(self) {
                Err(ParsingError::Recoverable) => {},
                Ok(v) => return Ok(Some(v)),
                Err(e) => return Err(e),
            }
            if let XmlEvent::End(_) = &self.events[self.pos] {
                return Ok(None);
            }
            proof {
                lemma_skip(evs, self.st());
            }
            match self.skip() {
                Err(e) => return Err(e),
                Ok(()) => {},
            }
            assert(here.pos < self.st().pos);
        }
    }

    /// Reads all the values among the children of the current element.
    pub fn collect<N: QRead>(&mut self) -> (r: Result<Vec<N>, ParsingError>)
        requires
            old(self).wf(),
        ensures
            final(self).wf(),
            final(self).evs() == old(self).evs(),
            match r {
                Ok(v) => collect_spec::<N>(old(self).evs(), old(self).st()).0 == Ok::<Seq<N::V>, ParsingError>(
                    views(v@),
                ),
                Err(e) => collect_spec::<N>(old(self).evs(), old(self).st()).0 == Err::<Seq<N::V>, ParsingError>(e),
            },
            final(self).st() == collect_spec::<N>(old(self).evs(), old(self).st()).1,
            final(self).st().pos >= old(self).st().pos,
    {
        let mut acc: Vec<N> = Vec::new();
        if !self.parent_has_child() {
            proof {
                assert(views(acc@) =~= Seq::<N::V>::empty());
            }
            return Ok(acc);
        }
        let ghost evs = self.evs();
        let ghost st0 = self.st();
        proof {
            assert(views(acc@) =~= Seq::<N::V>::empty());
        }
        loop
            invariant
                self.wf(),
                self.evs() == evs,
                evs == old(self).evs(),
                st0 == old(self).st(),
                parent_has_child_spec(evs, st0),
                self.st().pos >= st0.pos,
                collect_loop::<N>(evs, self.st(), views(acc@)) == collect_loop::<N>(evs, st0, Seq::empty()),
            decreases evs.len() - self.st().pos,
        {
            let ghost here = self.st();
            let ghost before = views(acc@);
            match N::qread(self) {
                Ok(v) => {
                    acc.push(v);
                    proof {
                        assert(views(acc@) =~= before.push(v@));
                    }
                },
                Err(ParsingError::Recoverable) => {
                    if let XmlEvent::End(_) = &self.events[self.pos] {
                        return Ok(acc);
                    }
                    proof {
                        lemma_skip(evs, self.st());
                    }
                    match self.skip() {
                        Err(e) => return Err(e),
                        Ok(()) => {},
                    }
                },
                Err(e) => return Err(e),
            }
            assert(here.pos < self.st().pos);
        }
    }

    /// Reads a value into `t` and sets `dirty` when one reads here.
    pub fn maybe_read<N: QRead>(&mut self, t: &mut Option<N>, dirty: &mut bool) -> (r: Result<(), ParsingError>)
        requires
            old(self).wf(),
        ensures
            final(self).wf(),
            final(self).evs() == old(self).evs(),
            ({
                let sp = maybe_read_spec::<N>(old(self).evs(), old(self).st(), opt_view(*old(t)), *old(dirty));
                &&& r == sp.0
                &&& final(self).st() == sp.1
                &&& opt_view(*final(t)) == sp.2
                &&& *final(dirty) == sp.3
            }),
            final(self).st().pos >= old(self).st().pos,
            *final(dirty) && !*old(dirty) ==> final(self).st().pos > old(self).st().pos,
    {
        if !self.parent_has_child() {
            return Ok(());
        }
        match N::qread(self) {
            Ok(v) => {
                *t = Some(v);
                *dirty = true;
                Ok(())
            },
            Err(ParsingError::Recoverable) => Ok(()),
            Err(e) => Err(e),
        }
    }

    /// Reads a value onto `t` and sets `dirty` when one reads here.
    pub fn maybe_push<N: QRead>(&mut self, t: &mut Vec<N>, dirty: &mut bool) -> (r: Result<(), ParsingError>)
        requires
            old(self).wf(),
        ensures
            final(self).wf(),
            final(self).evs() == old(self).evs(),
            ({
                let sp = maybe_push_spec::<N>(old(self).evs(), old(self).st(), views(old(t)@), *old(dirty));
                &&& r == sp.0
                &&& final(self).st() == sp.1
                &&& views(final(t)@) == sp.2
                &&& *final(dirty) == sp.3
            }),
            final(self).st().pos >= old(self).st().pos,
            *final(dirty) && !*old(dirty) ==> final(self).st().pos > old(self).st().pos,
    {
        if !self.parent_has_child() {
            return Ok(());
        }
        let ghost before = views(t@);
        match N::qread(self) {
            Ok(v) => {
                t.push(v);
                proof {
                    assert(views(t@) =~= before.push(v@));
                }
                *dirty = true;
                Ok(())
            },
            Err(ParsingError::Recoverable) => Ok(()),
            Err(e) => Err(e),
        }
    }
}

/// The views of a list of element names.
pub open spec fn keys_view(keys: Seq<&str>) -> Seq<Seq<char>> {
    keys.map_values(|k: &str| k@)
}

/// Reading the first of the empty elements `ns:keys[i..]` that is the
/// current one, then closing it: its index, or `Recoverable` when none is.
pub open spec fn atoms_spec(evs: Seq<XmlEvent>, st: RState, ns: Seq<char>, keys: Seq<Seq<char>>, i: int) -> (
    Result<int, ParsingError>,
    RState,
)
    decreases keys.len() - i,
{
    if i < 0 || i >= keys.len() {
        (Err(ParsingError::Recoverable), st)
    } else {
        match open_spec(evs, st, ns, keys[i]) {
            (Ok(_), s1) => match close_spec(evs, s1) {
                (Err(e), s) => (Err(e), s),
                (Ok(_), s2) => (Ok(i), s2),
            },
            (Err(ParsingError::Recoverable), s) => atoms_spec(evs, s, ns, keys, i + 1),
            (Err(e), s) => (Err(e), s),
        }
    }
}

impl Reader {
    /// Reads the first of the elements `ns:keys[..]` that is the current
    /// one, skipping its content: its index.
    pub fn read_atom(&mut self, ns: &str, keys: &Vec<&str>) -> (r: Result<usize, ParsingError>)
        requires
            old(self).wf(),
        ensures
            final(self).wf(),
            final(self).evs() == old(self).evs(),
            match r {
                Ok(i) => atoms_spec(old(self).evs(), old(self).st(), ns@, keys_view(keys@), 0).0 == Ok::<
                    int,
                    ParsingError,
                >(i as int),
                Err(e) => atoms_spec(old(self).evs(), old(self).st(), ns@, keys_view(keys@), 0).0 == Err::<
                    int,
                    ParsingError,
                >(e),
            },
            final(self).st() == atoms_spec(old(self).evs(), old(self).st(), ns@, keys_view(keys@), 0).1,
            final(self).st().pos >= old(self).st().pos,
            r is Ok ==> final(self).st().pos > old(self).st().pos,
    {
        let ghost evs = self.evs();
        let ghost st0 = self.st();
        let mut i: usize = 0;
        while i < keys.len()
            invariant
                self.wf(),
                self.evs() == evs,
                evs == old(self).evs(),
                self.st() == st0,
                st0 == old(self).st(),
                i <= keys@.len(),
                atoms_spec(evs, st0, ns@, keys_view(keys@), i as int) == atoms_spec(
                    evs,
                    st0,
                    ns@,
                    keys_view(keys@),
                    0,
                ),
            decreases keys@.len() - i,
        {
            let ghost here = self.st();
            proof {
                assert(keys_view(keys@)[i as int] == keys@[i as int]@);
            }
            match self.maybe_open(ns, keys[i]) {
                Err(e) => return Err(e),
                Ok(true) => {
                    let ghost opened = self.st();
                    let r = self.close();
                    proof {
                        if evs[opened.pos] is Eof {
                            assert(evs[here.pos] is Empty || evs[here.pos] is Start);
                        }
                    }
                    return match r {
                        Ok(()) => Ok(i),
                        Err(e) => Err(e),
                    };
                },
                Ok(false) => {},
            }
            i = i + 1;
        }
        Err(ParsingError::Recoverable)
    }
}

// ---- Writing ----

/// An opening tag an encoder builds: its written name and its attributes.
#[derive(Debug, PartialEq, Clone)]
pub struct ElemStart {
    pub qname: String,
    pub attrs: Vec<(String, String)>,
}

/// An event an encoder writes.
#[derive(Debug, PartialEq, Clone)]
pub enum WEvent {
    Start(ElemStart),
    Empty(ElemStart),
    End(String),
    /// Text, written escaped.
    Text(String),
}

/// What an encoder writes, by the characters of names, attributes and
/// text.
pub enum WView {
    Start(Seq<char>, Seq<(Seq<char>, Seq<char>)>),
    Empty(Seq<char>, Seq<(Seq<char>, Seq<char>)>),
    End(Seq<char>),
    Text(Seq<char>),
}

/// The characters of a list of attributes.
pub open spec fn attrs_view(a: Seq<(String, String)>) -> Seq<(Seq<char>, Seq<char>)> {
    a.map_values(|p: (String, String)| (p.0@, p.1@))
}

/// The characters of a written event.
pub open spec fn wview(e: WEvent) -> WView {
    match e {
        WEvent::Start(s) => WView::Start(s.qname@, attrs_view(s.attrs@)),
        WEvent::Empty(s) => WView::Empty(s.qname@, attrs_view(s.attrs@)),
        WEvent::End(q) => WView::End(q@),
        WEvent::Text(t) => WView::Text(t@),
    }
}

/// The characters of written events.
pub open spec fn wviews(s: Seq<WEvent>) -> Seq<WView> {
    s.map_values(|e: WEvent| wview(e))
}

impl ElemStart {
    /// Adds an attribute after those the element has.
    pub fn push_attribute(&mut self, key: &str, value: &str)
        ensures
            final(self).qname@ == old(self).qname@,
            attrs_view(final(self).attrs@) == attrs_view(old(self).attrs@).push((key@, value@)),
    {
        let k = key.to_string();
        let v = value.to_string();
        let ghost before = self.attrs@;
        self.attrs.push((k, v));
        proof {
            assert(attrs_view(self.attrs@) =~= attrs_view(before).push((key@, value@)));
        }
    }

    /// The closing tag of the element.
    pub fn to_end(&self) -> (r: WEvent)
        ensures
            wview(r) == WView::End(self.qname@),
    {
        WEvent::End(copy_string(&self.qname))
    }
}

/// The events an encoder writes, and the namespace declarations that the
/// next element it creates carries.
pub struct Writer {
    pub events: Vec<WEvent>,
    pub ns_to_apply: Vec<(String, String)>,
}

impl Writer {
    /// The events written so far.
    pub open spec fn out(&self) -> Seq<WView> {
        wviews(self.events@)
    }

    /// The declarations the next element carries.
    pub open spec fn ns(&self) -> Seq<(Seq<char>, Seq<char>)> {
        attrs_view(self.ns_to_apply@)
    }

    /// A writer that has written nothing; its first element carries the
    /// given namespace declarations.
    pub fn new(ns_to_apply: Vec<(String, String)>) -> (r: Self)
        ensures
            r.out() == Seq::<WView>::empty(),
            r.ns() == attrs_view(ns_to_apply@),
    {
        let r = Writer { events: Vec::new(), ns_to_apply };
        assert(r.out() =~= Seq::<WView>::empty());
        r
    }

    /// Writes an event.
    pub fn write(&mut self, e: WEvent)
        ensures
            final(self).out() == old(self).out().push(wview(e)),
            final(self).ns() == old(self).ns(),
    {
        let ghost before = self.events@;
        self.events.push(e);
        proof {
            assert(wviews(self.events@) =~= wviews(before).push(wview(e)));
        }
    }

    /// An element `ns:name`, carrying the pending namespace declarations,
    /// which are then dropped.
    fn create_ns_element(&mut self, ns: &str, name: &str) -> (r: ElemStart)
        ensures
            r.qname@ == ns@ + seq![':'] + name@,
            attrs_view(r.attrs@) == old(self).ns(),
            final(self).ns() == Seq::<(Seq<char>, Seq<char>)>::empty(),
            final(self).out() == old(self).out(),
    {
        let mut qname = String::new();
        push_str(&mut qname, ns);
        crate::text::push_char(&mut qname, ':');
        push_str(&mut qname, name);
        let mut attrs: Vec<(String, String)> = Vec::new();
        std::mem::swap(&mut attrs, &mut self.ns_to_apply);
        proof {
            assert(attrs_view(self.ns_to_apply@) =~= Seq::<(Seq<char>, Seq<char>)>::empty());
        }
        ElemStart { qname, attrs }
    }

    /// An element `D:name`; see `create_ns_element`.
    pub fn create_dav_element(&mut self, name: &str) -> (r: ElemStart)
        ensures
            r.qname@ == seq!['D', ':'] + name@,
            attrs_view(r.attrs@) == old(self).ns(),
            final(self).ns() == Seq::<(Seq<char>, Seq<char>)>::empty(),
            final(self).out() == old(self).out(),
    {
        proof {
            reveal_strlit("D");
        }
        let r = self.create_ns_element("D", name);
        assert(r.qname@ =~= seq!['D', ':'] + name@);
        r
    }

    /// An element `C:name`; see `create_ns_element`.
    pub fn create_cal_element(&mut self, name: &str) -> (r: ElemStart)
        ensures
            r.qname@ == seq!['C', ':'] + name@,
            attrs_view(r.attrs@) == old(self).ns(),
            final(self).ns() == Seq::<(Seq<char>, Seq<char>)>::empty(),
            final(self).out() == old(self).out(),
    {
        proof {
            reveal_strlit("C");
        }
        let r = self.create_ns_element("C", name);
        assert(r.qname@ =~= seq!['C', ':'] + name@);
        r
    }
}

impl Writer {
    /// An element `C:name` of CardDAV, whose prefix the documents bind to
    /// the CardDAV namespace; see `create_ns_element`.
    pub fn create_card_element(&mut self, name: &str) -> (r: ElemStart)
        ensures
            r.qname@ == seq!['C', ':'] + name@,
            attrs_view(r.attrs@) == old(self).ns(),
            final(self).ns() == Seq::<(Seq<char>, Seq<char>)>::empty(),
            final(self).out() == old(self).out(),
    {
        self.create_cal_element(name)
    }

    /// Writes the empty element `D:name`.
    pub fn write_dav_atom(&mut self, name: &str)
        ensures
            final(self).out() == old(self).out().push(WView::Empty(seq!['D', ':'] + name@, old(self).ns())),
            final(self).ns() == Seq::<(Seq<char>, Seq<char>)>::empty(),
    {
        let e = self.create_dav_element(name);
        self.write(WEvent::Empty(e));
    }
}

/// A value that writes itself as events.
pub trait QWrite {
    /// The events the value writes when the next element carries the
    /// declarations `ns`.
    spec fn qwrite_spec(&self, ns: Seq<(Seq<char>, Seq<char>)>) -> Seq<WView>;

    /// Writes the value; its first element carries the pending
    /// declarations.
    fn qwrite(&self, xml: &mut Writer)
        ensures
            final(xml).out() == old(xml).out() + self.qwrite_spec(old(xml).ns()),
            final(xml).ns() == Seq::<(Seq<char>, Seq<char>)>::empty(),
    ;
}

} // verus!
