//! Random XML documents built from WebDAV words, to feed the decoders
//! inputs that look almost right.
use vstd::prelude::*;

use crate::text::{decimal, decimal_string, push_str};

verus! {

/// How many words the documents are built from.
pub const TOKEN_COUNT: usize = 63;

/// The words the documents are built from: WebDAV element names and values.
pub open spec fn token_text(i: usize) -> Seq<char> {
    match i {
        0 => "0"@,
        1 => "1"@,
        2 => "activelock"@,
        3 => "allprop"@,
        4 => "encoding"@,
        5 => "utf-8"@,
        6 => "http://ns.example.com/boxschema/"@,
        7 => "HTTP/1.1 200 OK"@,
        8 => "1997-12-01T18:27:21-08:00"@,
        9 => "Mon, 12 Jan 1998 09:25:56 GMT"@,
        10 => "\"abcdef\""@,
        11 => "cannot-modify-protected-property"@,
        12 => "collection"@,
        13 => "creationdate"@,
        14 => "DAV:"@,
        15 => "D"@,
        16 => "C"@,
        17 => "xmlns:D"@,
        18 => "depth"@,
        19 => "displayname"@,
        20 => "error"@,
        21 => "exclusive"@,
        22 => "getcontentlanguage"@,
        23 => "getcontentlength"@,
        24 => "getcontenttype"@,
        25 => "getetag"@,
        26 => "getlastmodified"@,
        27 => "href"@,
        28 => "include"@,
        29 => "Infinite"@,
        30 => "infinity"@,
        31 => "location"@,
        32 => "lockdiscovery"@,
        33 => "lockentry"@,
        34 => "lockinfo"@,
        35 => "lockroot"@,
        36 => "lockscope"@,
        37 => "locktoken"@,
        38 => "lock-token-matches-request-uri"@,
        39 => "lock-token-submitted"@,
        40 => "locktype"@,
        41 => "multistatus"@,
        42 => "no-conflicting-lock"@,
        43 => "no-external-entities"@,
        44 => "owner"@,
        45 => "preserved-live-properties"@,
        46 => "prop"@,
        47 => "propertyupdate"@,
        48 => "propfind"@,
        49 => "propfind-finite-depth"@,
        50 => "propname"@,
        51 => "propstat"@,
        52 => "remove"@,
        53 => "resourcetype"@,
        54 => "response"@,
        55 => "responsedescription"@,
        56 => "set"@,
        57 => "shared"@,
        58 => "status"@,
        59 => "supportedlock"@,
        60 => "text/html"@,
        61 => "timeout"@,
        _ => "write"@,
    }
}

/// The `i`-th word.
fn token_str(i: usize) -> (r: &'static str)
    requires
        i < TOKEN_COUNT,
    ensures
        r@ == token_text(i),
{
    match i {
        0 => "0",
        1 => "1",
        2 => "activelock",
        3 => "allprop",
        4 => "encoding",
        5 => "utf-8",
        6 => "http://ns.example.com/boxschema/",
        7 => "HTTP/1.1 200 OK",
        8 => "1997-12-01T18:27:21-08:00",
        9 => "Mon, 12 Jan 1998 09:25:56 GMT",
        10 => "\"abcdef\"",
        11 => "cannot-modify-protected-property",
        12 => "collection",
        13 => "creationdate",
        14 => "DAV:",
        15 => "D",
        16 => "C",
        17 => "xmlns:D",
        18 => "depth",
        19 => "displayname",
        20 => "error",
        21 => "exclusive",
        22 => "getcontentlanguage",
        23 => "getcontentlength",
        24 => "getcontenttype",
        25 => "getetag",
        26 => "getlastmodified",
        27 => "href",
        28 => "include",
        29 => "Infinite",
        30 => "infinity",
        31 => "location",
        32 => "lockdiscovery",
        33 => "lockentry",
        34 => "lockinfo",
        35 => "lockroot",
        36 => "lockscope",
        37 => "locktoken",
        38 => "lock-token-matches-request-uri",
        39 => "lock-token-submitted",
        40 => "locktype",
        41 => "multistatus",
        42 => "no-conflicting-lock",
        43 => "no-external-entities",
        44 => "owner",
        45 => "preserved-live-properties",
        46 => "prop",
        47 => "propertyupdate",
        48 => "propfind",
        49 => "propfind-finite-depth",
        50 => "propname",
        51 => "propstat",
        52 => "remove",
        53 => "resourcetype",
        54 => "response",
        55 => "responsedescription",
        56 => "set",
        57 => "shared",
        58 => "status",
        59 => "supportedlock",
        60 => "text/html",
        61 => "timeout",
        _ => "write",
    }
}

/// A word of a document, chosen by a number.
pub enum Token {
    Known(usize),
}

/// The word a token stands for: the number picks it, round the list.
pub open spec fn token_view(t: Token) -> Seq<char> {
    match t {
        Token::Known(i) => token_text(i % TOKEN_COUNT),
    }
}

impl Token {
    /// The word the token stands for.
    pub fn serialize(&self) -> (r: String)
        ensures
            r@ == token_view(*self),
    {
        match self {
            Token::Known(i) => {
                let mut s = String::new();
                push_str(&mut s, token_str(*i % TOKEN_COUNT));
                s
            },
        }
    }
}

/// An element name, with perhaps one attribute.
pub struct Tag {
    pub name: Token,
    pub attr: Option<(Token, Token)>,
}

/// The text inside an opening tag: `D:name`, then ` key="value"` when the
/// tag has an attribute.
pub open spec fn tag_start(t: Tag) -> Seq<char> {
    let head = "D:"@ + token_view(t.name);
    match t.attr {
        Some((k, v)) => head + " "@ + token_view(k) + "=\""@ + token_view(v) + "\""@,
        None => head,
    }
}

/// The text inside a closing tag: `D:name`.
pub open spec fn tag_end(t: Tag) -> Seq<char> {
    "D:"@ + token_view(t.name)
}

impl Tag {
    /// The text inside the opening tag.
    pub fn start(&self) -> (r: String)
        ensures
            r@ == tag_start(*self),
    {
        let mut acc = String::new();
        push_str(&mut acc, "D:");
        push_str(&mut acc, self.name.serialize().as_str());
        match &self.attr {
            Some((k, v)) => {
                push_str(&mut acc, " ");
                push_str(&mut acc, k.serialize().as_str());
                push_str(&mut acc, "=\"");
                push_str(&mut acc, v.serialize().as_str());
                push_str(&mut acc, "\"");
            },
            None => {},
        }
        acc
    }

    /// The text inside the closing tag.
    pub fn end(&self) -> (r: String)
        ensures
            r@ == tag_end(*self),
    {
        let mut acc = String::new();
        push_str(&mut acc, "D:");
        push_str(&mut acc, self.name.serialize().as_str());
        acc
    }
}

/// A node of a document: an element with children, a number or a word.
pub enum XmlNode {
    Node(Tag, Vec<XmlNode>),
    Number(u64),
    Text(Token),
}


/// The text of a node: an element is self-closing without children,
/// otherwise its children's texts stand between its tags.
pub open spec fn node_text(n: XmlNode) -> Seq<char>
    decreases n, 1int,
{
    match n {
        XmlNode::Node(tag, children) => if children@.len() == 0 {
            "<"@ + tag_start(tag) + "/>"@
        } else {
            "<"@ + tag_start(tag) + ">"@ + children_text(children@, children@.len() as int) + "</"@ + tag_end(
                tag,
            ) + ">"@
        },
        XmlNode::Number(v) => decimal(v as nat),
        XmlNode::Text(t) => token_view(t),
    }
}

/// The texts of the first `k` children, one after the other.
pub open spec fn children_text(children: Seq<XmlNode>, k: int) -> Seq<char>
    decreases children, 0int, k,
{
    if k <= 0 || k > children.len() {
        Seq::empty()
    } else {
        children_text(children, k - 1) + node_text(children[k - 1])
    }
}


impl XmlNode {
    /// The text of the node.
    pub fn serialize(&self) -> (r: String)
        ensures
            r@ == node_text(*self),
        decreases self,
    {
        match self {
            XmlNode::Node(tag, children) => {
                let stag = tag.start();
                let mut acc = String::new();
                if children.len() == 0 {
                    push_str(&mut acc, "<");
                    push_str(&mut acc, stag.as_str());
                    push_str(&mut acc, "/>");
                    acc
                } else {
                    push_str(&mut acc, "<");
                    push_str(&mut acc, stag.as_str());
                    push_str(&mut acc, ">");
                    let ghost head = acc@;
                    let mut i: usize = 0;
                    while i < children.len()
                        invariant
                            i <= children@.len(),
                            *self == XmlNode::Node(*tag, *children),
                            acc@ == head + children_text(children@, i as int),
                        decreases children@.len() - i,
                    {
                        proof {
                            assert(decreases_to!(*self => (*self)->Node_1));
                            assert((*self)->Node_1 == *children);
                            assert(decreases_to!(*children => children@));
                            assert(decreases_to!(children@ => children@[i as int]));
                        }
                        let part = children[i].serialize();
                        push_str(&mut acc, part.as_str());
                        i = i + 1;
                    }
                    push_str(&mut acc, "</");
                    push_str(&mut acc, tag.end().as_str());
                    push_str(&mut acc, ">");
                    acc
                }
            },
            XmlNode::Number(v) => decimal_string(*v),
            XmlNode::Text(t) => t.serialize(),
        }
    }
}

} // verus!
