//! Reading the elements of collection synchronization (RFC 6578).
use vstd::prelude::*;

use super::error::ParsingError;
use super::coredecoder::PropertyRequestView;
use super::synctypes::{SyncCollection, SyncLevel, SyncToken, SyncTokenRequest};
use super::types::{Extension, PropName};
use super::versioningtypes::Limit;
use super::xml::{
    close_spec, lemma_skip, maybe_read_spec, open_spec, opt_view, skip_spec, tag_string_spec, QRead, RState, Reader,
    XmlEvent, DAV_URN,
};
use crate::text::chars_of;

verus! {

/// Whether `t` is `w` up to the case of ASCII letters, where `w` is
/// written in lowercase.
pub open spec fn ascii_ci_eq(t: Seq<char>, w: Seq<char>) -> bool {
    t.len() == w.len() && forall|i: int|
        0 <= i < t.len() ==> (#[trigger] t[i] == w[i] || ('a' <= w[i] <= 'z' && t[i] as u32 + 32 == w[i] as u32))
}

/// The level a sync-level text names: `1` or `infinite`, in any case. (The
/// only characters whose lowercase is one of these letters are the ASCII
/// letters themselves, so this is the text lowercased.)
pub open spec fn sync_level_of(t: Seq<char>) -> Option<SyncLevel> {
    if t == seq!['1'] {
        Some(SyncLevel::One)
    } else if ascii_ci_eq(t, seq!['i', 'n', 'f', 'i', 'n', 'i', 't', 'e']) {
        Some(SyncLevel::Infinite)
    } else {
        None
    }
}

/// Whether a text is `w` up to the case of ASCII letters.
fn ci_eq(t: &Vec<char>, w: &Vec<char>) -> (r: bool)
    ensures
        r == ascii_ci_eq(t@, w@),
{
    if t.len() != w.len() {
        return false;
    }
    let mut i: usize = 0;
    while i < t.len()
        invariant
            i <= t@.len() == w@.len(),
            forall|k: int|
                0 <= k < i ==> (#[trigger] t@[k] == w@[k] || ('a' <= w@[k] <= 'z' && t@[k] as u32 + 32 == w@[k] as u32)),
        decreases t@.len() - i,
    {
        let a = t[i];
        let b = w[i];
        if !(a == b || ('a' <= b && b <= 'z' && (a as u32) == (b as u32) - 32)) {
            return false;
        }
        i = i + 1;
    }
    true
}

/// The level a sync-level text names.
fn parse_sync_level(s: &str) -> (r: Option<SyncLevel>)
    ensures
        r == sync_level_of(s@),
{
    let cs = chars_of(s);
    if cs.len() == 1 && cs[0] == '1' {
        assert(cs@ =~= seq!['1']);
        return Some(SyncLevel::One);
    }
    let word: Vec<char> = vec!['i', 'n', 'f', 'i', 'n', 'i', 't', 'e'];
    assert(word@ =~= seq!['i', 'n', 'f', 'i', 'n', 'i', 't', 'e']);
    if ci_eq(&cs, &word) {
        Some(SyncLevel::Infinite)
    } else {
        None
    }
}

/// `<D:sync-level>`: `1` or `infinite`.
pub open spec fn sync_level_spec(evs: Seq<XmlEvent>, st: RState) -> (Result<SyncLevel, ParsingError>, RState) {
    match open_spec(evs, st, DAV_URN@, "sync-level"@) {
        (Err(e), s) => (Err(e), s),
        (Ok(_), s1) => match tag_string_spec(evs, s1) {
            (Err(e), s) => (Err(e), s),
            (Ok(t), s2) => match sync_level_of(t) {
                None => (Err(ParsingError::InvalidValue), s2),
                Some(l) => match close_spec(evs, s2) {
                    (Err(e), s) => (Err(e), s),
                    (Ok(_), s3) => (Ok(l), s3),
                },
            },
        },
    }
}

impl QRead for SyncLevel {
    open spec fn qread_spec(evs: Seq<XmlEvent>, st: RState) -> (Result<SyncLevel, ParsingError>, RState) {
        sync_level_spec(evs, st)
    }

    fn qread(xml: &mut Reader) -> (r: Result<Self, ParsingError>) {
        xml.open(DAV_URN, "sync-level")?;
        let text = xml.tag_string()?;
        let lvl = match parse_sync_level(text.as_str()) {
            Some(l) => l,
            None => return Err(ParsingError::InvalidValue),
        };
        xml.close()?;
        Ok(lvl)
    }
}

/// `<D:sync-token>` in a request: empty for an initial sync, else the
/// token.
pub open spec fn sync_token_request_spec(evs: Seq<XmlEvent>, st: RState) -> (
    Result<Option<Seq<char>>, ParsingError>,
    RState,
) {
    match open_spec(evs, st, DAV_URN@, "sync-token"@) {
        (Err(e), s) => (Err(e), s),
        (Ok(_), s1) => {
            let (t, s2) = tag_string_spec(evs, s1);
            let tok: Result<Option<Seq<char>>, ParsingError> = match t {
                Ok(v) => Ok(Some(v)),
                Err(ParsingError::Recoverable) => Ok(None),
                Err(e) => Err(e),
            };
            match tok {
                Err(e) => (Err(e), s2),
                Ok(v) => match close_spec(evs, s2) {
                    (Err(e), s) => (Err(e), s),
                    (Ok(_), s3) => (Ok(v), s3),
                },
            }
        },
    }
}

impl QRead for SyncTokenRequest {
    open spec fn qread_spec(evs: Seq<XmlEvent>, st: RState) -> (Result<Option<Seq<char>>, ParsingError>, RState) {
        sync_token_request_spec(evs, st)
    }

    fn qread(xml: &mut Reader) -> (r: Result<Self, ParsingError>) {
        xml.open(DAV_URN, "sync-token")?;
        let token = match xml.tag_string() {
            Ok(v) => SyncTokenRequest::IncrementalSync(v),
            Err(ParsingError::Recoverable) => SyncTokenRequest::InitialSync,
            Err(e) => return Err(e),
        };
        xml.close()?;
        Ok(token)
    }
}

/// `<D:sync-token>` in a response: the token.
pub open spec fn sync_token_spec(evs: Seq<XmlEvent>, st: RState) -> (Result<Seq<char>, ParsingError>, RState) {
    match open_spec(evs, st, DAV_URN@, "sync-token"@) {
        (Err(e), s) => (Err(e), s),
        (Ok(_), s1) => match tag_string_spec(evs, s1) {
            (Err(e), s) => (Err(e), s),
            (Ok(t), s2) => match close_spec(evs, s2) {
                (Err(e), s) => (Err(e), s),
                (Ok(_), s3) => (Ok(t), s3),
            },
        },
    }
}

impl QRead for SyncToken {
    open spec fn qread_spec(evs: Seq<XmlEvent>, st: RState) -> (Result<Seq<char>, ParsingError>, RState) {
        sync_token_spec(evs, st)
    }

    fn qread(xml: &mut Reader) -> (r: Result<Self, ParsingError>) {
        xml.open(DAV_URN, "sync-token")?;
        let token = xml.tag_string()?;
        xml.close()?;
        Ok(SyncToken(token))
    }
}

/// A sync-collection report by its view.
pub struct SyncCollectionView<Q> {
    pub sync_token: Option<Seq<char>>,
    pub sync_level: SyncLevel,
    pub limit: Option<u64>,
    pub prop: Seq<PropertyRequestView<Q>>,
}

impl<E: Extension> View for SyncCollection<E> where E::PropertyRequest: View {
    type V = SyncCollectionView<<E::PropertyRequest as View>::V>;

    open spec fn view(&self) -> Self::V {
        SyncCollectionView {
            sync_token: self.sync_token@,
            sync_level: self.sync_level,
            limit: opt_view(self.limit),
            prop: self.prop@,
        }
    }
}

/// What has been read of a sync-collection report so far.
pub struct SyncSlots<Q> {
    pub sync_token: Option<Option<Seq<char>>>,
    pub sync_level: Option<SyncLevel>,
    pub limit: Option<u64>,
    pub prop: Option<Seq<PropertyRequestView<Q>>>,
}

/// One pass over the children of a sync-collection report: the token,
/// the level, the limit and the property names, each read where it
/// stands.
pub open spec fn sync_step<E: Extension>(
    evs: Seq<XmlEvent>,
    st: RState,
    sl: SyncSlots<<E::PropertyRequest as View>::V>,
) -> (Result<(), ParsingError>, RState, SyncSlots<<E::PropertyRequest as View>::V>, bool) where
    E::PropertyRequest: QRead,
 {
    let (r1, s1, a, d1) = maybe_read_spec::<SyncTokenRequest>(evs, st, sl.sync_token, false);
    if r1 is Err {
        (r1, s1, SyncSlots { sync_token: a, ..sl }, d1)
    } else {
        let (r2, s2, b, d2) = maybe_read_spec::<SyncLevel>(evs, s1, sl.sync_level, d1);
        if r2 is Err {
            (r2, s2, SyncSlots { sync_token: a, sync_level: b, ..sl }, d2)
        } else {
            let (r3, s3, c, d3) = maybe_read_spec::<Limit>(evs, s2, sl.limit, d2);
            if r3 is Err {
                (r3, s3, SyncSlots { sync_token: a, sync_level: b, limit: c, ..sl }, d3)
            } else {
                let (r4, s4, d, d4) = maybe_read_spec::<PropName<E>>(evs, s3, sl.prop, d3);
                (r4, s4, SyncSlots { sync_token: a, sync_level: b, limit: c, prop: d }, d4)
            }
        }
    }
}

/// Passes over the children of a sync-collection report until a pass
/// reads nothing at its closing tag; the nodes where nothing reads are
/// skipped.
pub open spec fn sync_loop<E: Extension>(
    evs: Seq<XmlEvent>,
    st: RState,
    sl: SyncSlots<<E::PropertyRequest as View>::V>,
) -> (Result<(), ParsingError>, RState, SyncSlots<<E::PropertyRequest as View>::V>) where
    E::PropertyRequest: QRead,
    decreases evs.len() - st.pos,
{
    let (r, s, sl2, dirty) = sync_step::<E>(evs, st, sl);
    if r is Err {
        (r, s, sl2)
    } else if dirty {
        if st.pos < s.pos <= evs.len() {
            sync_loop::<E>(evs, s, sl2)
        } else {
            (Err(ParsingError::Eof), s, sl2)
        }
    } else if 0 <= s.pos < evs.len() {
        if evs[s.pos] is End {
            (Ok(()), s, sl2)
        } else {
            match skip_spec(evs, s) {
                (Err(e), s2) => (Err(e), s2, sl2),
                (Ok(_), s2) => if st.pos < s2.pos <= evs.len() {
                    sync_loop::<E>(evs, s2, sl2)
                } else {
                    (Err(ParsingError::Eof), s2, sl2)
                },
            }
        }
    } else {
        (Err(ParsingError::Eof), s, sl2)
    }
}

/// `<D:sync-collection>`: a token, a level and property names, all
/// required, with an optional limit.
pub open spec fn sync_collection_spec<E: Extension>(evs: Seq<XmlEvent>, st: RState) -> (
    Result<SyncCollectionView<<E::PropertyRequest as View>::V>, ParsingError>,
    RState,
) where E::PropertyRequest: QRead {
    match open_spec(evs, st, DAV_URN@, "sync-collection"@) {
        (Err(e), s) => (Err(e), s),
        (Ok(_), s1) => match sync_loop::<E>(
            evs,
            s1,
            SyncSlots { sync_token: None, sync_level: None, limit: None, prop: None },
        ) {
            (Err(e), s, _) => (Err(e), s),
            (Ok(_), s2, sl) => match close_spec(evs, s2) {
                (Err(e), s) => (Err(e), s),
                (Ok(_), s3) => match (sl.sync_token, sl.sync_level, sl.prop) {
                    (Some(t), Some(l), Some(p)) => (
                        Ok(SyncCollectionView { sync_token: t, sync_level: l, limit: sl.limit, prop: p }),
                        s3,
                    ),
                    _ => (Err(ParsingError::MissingChild), s3),
                },
            },
        },
    }
}

impl<E: Extension> QRead for SyncCollection<E> where E::PropertyRequest: QRead {
    open spec fn qread_spec(evs: Seq<XmlEvent>, st: RState) -> (Result<Self::V, ParsingError>, RState) {
        sync_collection_spec::<E>(evs, st)
    }

    #[verifier::spinoff_prover]
    #[verifier::rlimit(40)]
    fn qread(xml: &mut Reader) -> (r: Result<Self, ParsingError>) {
        xml.open(DAV_URN, "sync-collection")?;
        let ghost evs = xml.evs();
        let ghost s1 = xml.st();
        let ghost start = old(xml).st();
        let mut sync_token: Option<SyncTokenRequest> = None;
        let mut sync_level: Option<SyncLevel> = None;
        let mut limit: Option<Limit> = None;
        let mut prop: Option<PropName<E>> = None;
        loop
            invariant_except_break
                sync_loop::<E>(
                    evs,
                    xml.st(),
                    SyncSlots {
                        sync_token: opt_view(sync_token),
                        sync_level: opt_view(sync_level),
                        limit: opt_view(limit),
                        prop: opt_view(prop),
                    },
                ) == sync_loop::<E>(evs, s1, SyncSlots { sync_token: None, sync_level: None, limit: None, prop: None }),
            invariant
                xml.wf(),
                xml.evs() == evs,
                evs == old(xml).evs(),
                start == old(xml).st(),
                xml.st().pos >= s1.pos,
                s1.pos >= start.pos,
                open_spec(evs, start, DAV_URN@, "sync-collection"@).1 == s1,
                open_spec(evs, start, DAV_URN@, "sync-collection"@).0 is Ok,
            ensures
                sync_loop::<E>(evs, s1, SyncSlots { sync_token: None, sync_level: None, limit: None, prop: None }) == (
                    Ok::<(), ParsingError>(()),
                    xml.st(),
                    SyncSlots {
                        sync_token: opt_view(sync_token),
                        sync_level: opt_view(sync_level),
                        limit: opt_view(limit),
                        prop: opt_view(prop),
                    },
                ),
            decreases evs.len() - xml.st().pos,
        {
            let ghost here = xml.st();
            let mut dirty = false;
            xml.maybe_read(&mut sync_token, &mut dirty)?;
            xml.maybe_read(&mut sync_level, &mut dirty)?;
            xml.maybe_read(&mut limit, &mut dirty)?;
            xml.maybe_read(&mut prop, &mut dirty)?;
            if !dirty {
                if let XmlEvent::End(_) = xml.peek() {
                    break;
                }
                proof {
                    lemma_skip(evs, xml.st());
                }
                xml.skip()?;
            }
            assert(here.pos < xml.st().pos);
        }
        xml.close()?;
        match (sync_token, sync_level, prop) {
            (Some(sync_token), Some(sync_level), Some(prop)) => Ok(SyncCollection { sync_token, sync_level, limit, prop }),
            _ => Err(ParsingError::MissingChild),
        }
    }
}

} // verus!
