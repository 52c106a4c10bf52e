//! Writing the core WebDAV elements (RFC 4918) that the extensions share.
use vstd::prelude::*;

use super::syncencoder::{text_element, write_text_element};
use super::types::Href;
use super::xml::{QWrite, WView, Writer};

verus! {

impl QWrite for Href {
    open spec fn qwrite_spec(&self, ns: Seq<(Seq<char>, Seq<char>)>) -> Seq<WView> {
        text_element(seq!['D', ':'] + "href"@, ns, self.0@)
    }

    fn qwrite(&self, xml: &mut Writer) {
        let start = xml.create_dav_element("href");
        write_text_element(xml, start, self.0.clone());
    }
}

} // verus!
