//! Writing the versioning elements (RFC 3253) that CalDAV and sync use.
use vstd::prelude::*;

use super::syncencoder::{text_element, write_text_element};
use super::versioningtypes::{Limit, NResults};
use super::xml::{QWrite, WEvent, WView, Writer};
use crate::text::{decimal, decimal_string};

verus! {

impl QWrite for NResults {
    open spec fn qwrite_spec(&self, ns: Seq<(Seq<char>, Seq<char>)>) -> Seq<WView> {
        text_element(seq!['D', ':'] + "nresults"@, ns, decimal(self.0 as nat))
    }

    fn qwrite(&self, xml: &mut Writer) {
        let start = xml.create_dav_element("nresults");
        write_text_element(xml, start, decimal_string(self.0));
    }
}

impl QWrite for Limit {
    open spec fn qwrite_spec(&self, ns: Seq<(Seq<char>, Seq<char>)>) -> Seq<WView> {
        seq![WView::Start(seq!['D', ':'] + "limit"@, ns)] + self.0.qwrite_spec(Seq::empty()) + seq![
            WView::End(seq!['D', ':'] + "limit"@),
        ]
    }

    fn qwrite(&self, xml: &mut Writer) {
        let ghost o = xml.out();
        let ghost ns = xml.ns();
        let start = xml.create_dav_element("limit");
        let end = start.to_end();
        xml.write(WEvent::Start(start));
        self.0.qwrite(xml);
        xml.write(end);
        assert(xml.out() =~= o + self.qwrite_spec(ns));
    }
}

} // verus!
