//! Writing the elements of collection synchronization (RFC 6578).
use vstd::prelude::*;

use super::synctypes::{SyncLevel, SyncToken, SyncTokenRequest};
use super::xml::{QWrite, WEvent, WView, Writer};

verus! {

/// An element holding only text: its opening tag with the declarations
/// `ns`, the text, its closing tag.
pub open spec fn text_element(qname: Seq<char>, ns: Seq<(Seq<char>, Seq<char>)>, text: Seq<char>) -> Seq<WView> {
    seq![WView::Start(qname, ns), WView::Text(text), WView::End(qname)]
}

/// The text of a level.
pub open spec fn sync_level_text(l: SyncLevel) -> Seq<char> {
    match l {
        SyncLevel::One => seq!['1'],
        SyncLevel::Infinite => seq!['i', 'n', 'f', 'i', 'n', 'i', 't', 'e'],
    }
}

/// Writes an element holding only `text`.
pub(crate) fn write_text_element(xml: &mut Writer, start: super::xml::ElemStart, text: String)
    ensures
        final(xml).out() == old(xml).out() + text_element(start.qname@, super::xml::attrs_view(start.attrs@), text@),
        final(xml).ns() == old(xml).ns(),
{
    let end = start.to_end();
    let ghost q = start.qname@;
    let ghost a = super::xml::attrs_view(start.attrs@);
    let ghost o = xml.out();
    xml.write(WEvent::Start(start));
    xml.write(WEvent::Text(text));
    xml.write(end);
    assert(xml.out() =~= o + text_element(q, a, text@));
}

impl QWrite for SyncLevel {
    open spec fn qwrite_spec(&self, ns: Seq<(Seq<char>, Seq<char>)>) -> Seq<WView> {
        text_element(seq!['D', ':'] + "sync-level"@, ns, sync_level_text(*self))
    }

    fn qwrite(&self, xml: &mut Writer) {
        let start = xml.create_dav_element("sync-level");
        proof {
            reveal_strlit("1");
            reveal_strlit("infinite");
            assert("1"@ =~= seq!['1']);
            assert("infinite"@ =~= seq!['i', 'n', 'f', 'i', 'n', 'i', 't', 'e']);
        }
        let text = match self {
            Self::One => "1".to_owned(),
            Self::Infinite => "infinite".to_owned(),
        };
        write_text_element(xml, start, text);
    }
}

impl QWrite for SyncToken {
    open spec fn qwrite_spec(&self, ns: Seq<(Seq<char>, Seq<char>)>) -> Seq<WView> {
        text_element(seq!['D', ':'] + "sync-token"@, ns, self.0@)
    }

    fn qwrite(&self, xml: &mut Writer) {
        let start = xml.create_dav_element("sync-token");
        write_text_element(xml, start, self.0.clone());
    }
}

impl QWrite for SyncTokenRequest {
    open spec fn qwrite_spec(&self, ns: Seq<(Seq<char>, Seq<char>)>) -> Seq<WView> {
        match self {
            SyncTokenRequest::InitialSync => seq![WView::Empty(seq!['D', ':'] + "sync-token"@, ns)],
            SyncTokenRequest::IncrementalSync(uri) => text_element(seq!['D', ':'] + "sync-token"@, ns, uri@),
        }
    }

    fn qwrite(&self, xml: &mut Writer) {
        let start = xml.create_dav_element("sync-token");
        match self {
            Self::InitialSync => {
                let ghost o = xml.out();
                xml.write(WEvent::Empty(start));
                assert(xml.out() =~= o + self.qwrite_spec(old(xml).ns()));
            },
            Self::IncrementalSync(uri) => write_text_element(xml, start, uri.clone()),
        }
    }
}

} // verus!
