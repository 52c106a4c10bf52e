//! What a decoder reads back of what the matching encoder wrote.
use vstd::prelude::*;

use super::synctypes::{SyncLevel, SyncToken, SyncTokenRequest};
use super::versioningtypes::{Limit, NResults};
use super::error::ParsingError;
use super::syncdecoder::{ascii_ci_eq, sync_level_of};
use super::syncencoder::{sync_level_text, text_element};
use super::acldecoder::{find_close_spec, privilege_at, privilege_names, privileges_loop};
use super::aclencoder::{privilege_name, privileges_written};
use super::acldecoder::acl_property_names;
use super::aclencoder::acl_property_name;
use super::acltypes::{Privilege, PrivilegeSet, PropertyRequest as AclPropertyRequest, User};
use super::carddecoder::{card_property_names, violation_names_after, violation_names_before};
use super::cardencoder::{around, card_property_name, card_q, card_violation_name, lang_attr, written_all};
use super::cardtypes::{
    Limit as CardLimit, Property as CardProperty, PropertyRequest as CardPropertyRequest, ReportTypeName as CardReportTypeName,
    ResourceType as CardResourceType, Violation as CardViolation,
};
use super::carddecoder::{card_limit_loop, card_value_spec};
use super::coredecoder::open_first_spec;
use super::caldecoder::{
    timezone_spec, calendar_data_request_spec, data_request_loop, comp_spec, comp_loop, comp_kind_loop, cal_prop_kind_loop, cal_prop_spec, supported_filter_loop, comp_filter_spec, comp_rules_loop, time_range_spec, cal_prop_filter_spec, cal_prop_rules_loop, time_or_text_spec, cal_param_filter_match_spec, cal_param_filter_spec, calendar_data_payload_spec, cal_supported_collation_spec, cal_text_match_spec, comp_support_spec, calendar_data_empty_spec, mime_attrs, cal_count_spec, cal_value_names, cal_value_spec, cal_property_at, cal_property_names, cal_violation_after_at, cal_violation_before_at, cal_violation_dav_names,
    cal_violation_names_after, cal_violation_names_before,
};
use super::calencoder::{opt_written, comp_written, comp_kind_written, comps_written, prop_kind_written, novalue_attr, comp_filter_written, comp_filters_written, comp_rules_written, prop_rules_written, name_attr, mime_attr, cal_atom, cal_property_name, cal_q, cal_violation_name, text_match_attrs};
use super::caltypes::{
    collation_name, collation_view_of, CollationView, TextMatch, Component, ComponentView, CompSupport, component_name,
    component_view_of, CalendarDataEmpty, SupportedCollation, ParamFilter, ParamFilterMatch, ParamFilterMatchView,
    ParamFilterView, TextMatchView, Filter, CompFilter, CompFilterMatch, CompFilterRules, CompFilterRulesView, CompFilterView,
    TimeZone, CalendarDataRequest, RecurrenceModifier, UtcTime, Comp, CompKind, CompKindView, CompView, CalProp, CalPropView, PropKind, PropKindView, comp_view, comp_kind_view,
    comps_view, lemma_comps_view, lemma_comp_decreases, comp_filter_view, comp_filters_view, comp_rules_view, lemma_comp_filter_decreases, TimeRange, PropFilterView, PropFilter, PropFilterRules, PropFilterRulesView, TimeOrText, TimeOrTextView,
    Property as CalProperty, PropertyRequest as CalPropertyRequest, ResourceType as CalResourceType, Violation as CalViolation,
};
use super::decoder::href_spec;
use super::types::Href;
use super::xml::{
    atoms_spec, open_start_spec, state_ok, close_loop, close_spec, doc_ok, find_loop, find_spec, is_tag_spec, next_spec, open_spec, parent_has_child_spec,
    pop_parent, prev_attr_spec, attr_of, collect_loop, collect_spec, maybe_find_loop, maybe_push_spec, maybe_read_spec, tag_string_spec, text_loop, views, QRead, QWrite, RState, WView, XmlEvent, XmlName, CAL_URN, CARD_URN, DAV_URN,
};
use crate::text::{all_digits, decimal, decimal_value, is_white_space, lead_ws, trail_ws, trimmed, u64_of};

verus! {

/// Whether a name read back is the written `qname`, where the `D` prefix
/// is bound to the DAV: namespace and the `C` prefix to the CardDAV one.
pub open spec fn name_reads_as(n: XmlName, q: Seq<char>) -> bool {
    &&& n.qname@ == q
    &&& q.len() >= 2 && q[0] == 'D' && q[1] == ':' ==> (n.ns matches Some(u) && u@ == DAV_URN@) && n.local@ == q.skip(2)
    &&& q.len() >= 2 && q[0] == 'C' && q[1] == ':' ==> (n.ns matches Some(u) && u@ == CARD_URN@) && n.local@ == q.skip(
        2,
    )
}

/// Whether an event read back is the written one: the same kind, the same
/// name, the same text once unescaped.
pub open spec fn event_reads_as(e: XmlEvent, w: WView) -> bool {
    match (e, w) {
        (XmlEvent::Start(t), WView::Start(q, _)) => name_reads_as(t.name, q),
        (XmlEvent::Empty(t), WView::Empty(q, _)) => name_reads_as(t.name, q),
        (XmlEvent::End(n), WView::End(q)) => name_reads_as(n, q),
        (XmlEvent::Text(Some(s)), WView::Text(t)) => s@ == t,
        _ => false,
    }
}

/// Whether the events `evs` begin with a reading of the written events
/// `ws`, and go on with something that is no failure.
pub open spec fn reads_back(evs: Seq<XmlEvent>, ws: Seq<WView>) -> bool {
    &&& doc_ok(evs)
    &&& ws.len() < evs.len()
    &&& forall|i: int| 0 <= i < ws.len() ==> event_reads_as(#[trigger] evs[i], ws[i])
    &&& !(evs[ws.len() as int] is Fail)
}

/// A cursor at the start of a document.
pub open spec fn start_state() -> RState {
    RState { pos: 0, prev: None, parents: Seq::empty() }
}

/// The decimal digits of a number read back as the number.
pub proof fn lemma_decimal_reads_back(v: u64)
    ensures
        u64_of(decimal(v as nat)) == Some(v),
{
    lemma_decimal_value(v as nat);
    let d = decimal(v as nat);
    assert(d.len() > 0 && d[0] != '+') by {
        lemma_decimal_first(v as nat);
    }
}

/// The digits of a number are digits, and write it.
proof fn lemma_decimal_value(v: nat)
    ensures
        all_digits(decimal(v)),
        decimal_value(decimal(v)) == v,
        decimal(v).len() > 0,
    decreases v,
{
    if v < 10 {
        let c = (('0' as u8) + (v as u8)) as char;
        assert(decimal(v) == seq![c]);
        assert(seq![c].drop_last() =~= Seq::<char>::empty());
        assert(seq![c].last() == c);
        assert(c as int - '0' as int == v);
        assert(decimal_value(seq![c]) == decimal_value(Seq::<char>::empty()) * 10 + (c as int - '0' as int));
    } else {
        lemma_decimal_value(v / 10);
        let c = (('0' as u8) + ((v % 10) as u8)) as char;
        let d = decimal(v);
        assert(d == decimal(v / 10).push(c));
        assert(d.drop_last() == decimal(v / 10));
        assert(d.last() == c);
        assert(c as int - '0' as int == v % 10);
        assert(decimal_value(d) == (v / 10) * 10 + v % 10);
        assert forall|i: int| 0 <= i < d.len() implies '0' <= #[trigger] d[i] <= '9' by {
            if i < d.len() - 1 {
                assert(d[i] == decimal(v / 10)[i]);
            }
        }
    }
}

/// The first digit of a number is a digit.
proof fn lemma_decimal_first(v: nat)
    ensures
        decimal(v).len() > 0,
        '0' <= decimal(v)[0] <= '9',
    decreases v,
{
    if v >= 10 {
        lemma_decimal_first(v / 10);
        assert(decimal(v)[0] == decimal(v / 10)[0]);
    }
}

/// The written name `D:x`, read back, is the DAV: element `x`.
proof fn lemma_dav_tag(e: XmlEvent, w: WView, x: Seq<char>)
    requires
        event_reads_as(e, w),
        w matches WView::Start(q, _) ==> q == seq!['D', ':'] + x,
        w matches WView::Empty(q, _) ==> q == seq!['D', ':'] + x,
        w matches WView::End(q) ==> q == seq!['D', ':'] + x,
    ensures
        !(w is Text) ==> is_tag_spec(e, DAV_URN@, x),
{
    let q = seq!['D', ':'] + x;
    assert(q.skip(2) =~= x);
    assert(q[0] == 'D' && q[1] == ':');
}

/// Reading an element that holds only text, written at the start of the
/// events: the text, and the cursor after the element.
proof fn lemma_text_element(evs: Seq<XmlEvent>, x: Seq<char>, ns: Seq<(Seq<char>, Seq<char>)>, t: Seq<char>)
    requires
        reads_back(evs, text_element(seq!['D', ':'] + x, ns, t)),
    ensures
        open_spec(evs, start_state(), DAV_URN@, x) == (
            Ok::<int, ParsingError>(0),
            RState { pos: 1, prev: Some(0), parents: seq![0int] },
        ),
        tag_string_spec(evs, RState { pos: 1, prev: Some(0), parents: seq![0int] }) == (
            Ok::<Seq<char>, ParsingError>(t),
            RState { pos: 2, prev: Some(1), parents: seq![0int] },
        ),
        close_spec(evs, RState { pos: 2, prev: Some(1), parents: seq![0int] }).0 is Ok,
{
    let ws = text_element(seq!['D', ':'] + x, ns, t);
    assert(event_reads_as(evs[0], ws[0]));
    assert(event_reads_as(evs[1], ws[1]));
    assert(event_reads_as(evs[2], ws[2]));
    lemma_dav_tag(evs[0], ws[0], x);
    let s1 = RState { pos: 1, prev: Some(0), parents: seq![0int] };
    assert(Seq::<int>::empty().push(0) == seq![0int]);
    let s2 = RState { pos: 2, prev: Some(1), parents: seq![0int] };
    assert(next_spec(evs, s1) == (Ok::<int, ParsingError>(1), s2));
    assert(text_loop(evs, s2, t) == (Ok::<Seq<char>, ParsingError>(t), s2));
    assert(Seq::<char>::empty() + t =~= t);
    assert(text_loop(evs, s1, Seq::empty()) == text_loop(evs, s2, t));
    assert(close_loop(evs, s2) == next_spec(evs, pop_parent(s2)));
}

/// A written sync-level reads back as the same level.
pub proof fn law_sync_level_roundtrip(v: SyncLevel, ns: Seq<(Seq<char>, Seq<char>)>, evs: Seq<XmlEvent>)
    requires
        reads_back(evs, v.qwrite_spec(ns)),
    ensures
        <SyncLevel as QRead>::qread_spec(evs, start_state()).0 == Ok::<SyncLevel, ParsingError>(v),
{
    lemma_text_element(evs, "sync-level"@, ns, sync_level_text(v));
    reveal_strlit("1");
    assert(!ascii_ci_eq(seq!['1'], seq!['i', 'n', 'f', 'i', 'n', 'i', 't', 'e']));
    assert(seq!['i', 'n', 'f', 'i', 'n', 'i', 't', 'e'] != seq!['1']);
    assert(sync_level_of(sync_level_text(v)) == Some(v));
}

/// A written sync-token reads back as the same token.
pub proof fn law_sync_token_roundtrip(v: SyncToken, ns: Seq<(Seq<char>, Seq<char>)>, evs: Seq<XmlEvent>)
    requires
        reads_back(evs, v.qwrite_spec(ns)),
    ensures
        <SyncToken as QRead>::qread_spec(evs, start_state()).0 == Ok::<Seq<char>, ParsingError>(v@),
{
    lemma_text_element(evs, "sync-token"@, ns, v.0@);
}

/// A written sync-token request reads back as the same request.
pub proof fn law_sync_token_request_roundtrip(
    v: SyncTokenRequest,
    ns: Seq<(Seq<char>, Seq<char>)>,
    evs: Seq<XmlEvent>,
)
    requires
        reads_back(evs, v.qwrite_spec(ns)),
    ensures
        <SyncTokenRequest as QRead>::qread_spec(evs, start_state()).0 == Ok::<Option<Seq<char>>, ParsingError>(v@),
{
    match v {
        SyncTokenRequest::IncrementalSync(uri) => {
            lemma_text_element(evs, "sync-token"@, ns, uri@);
        },
        SyncTokenRequest::InitialSync => {
            let ws = v.qwrite_spec(ns);
            assert(event_reads_as(evs[0], ws[0]));
            lemma_dav_tag(evs[0], ws[0], "sync-token"@);
            let s1 = RState { pos: 0, prev: Some(0), parents: seq![0int] };
            assert(Seq::<int>::empty().push(0) == seq![0int]);
            assert(open_spec(evs, start_state(), DAV_URN@, "sync-token"@) == (Ok::<int, ParsingError>(0), s1));
            assert(!parent_has_child_spec(evs, s1));
            assert(tag_string_spec(evs, s1) == (Err::<Seq<char>, ParsingError>(ParsingError::Recoverable), s1));
            assert(close_spec(evs, s1) == next_spec(evs, pop_parent(s1)));
        },
    }
}

/// A written nresults reads back as the same number.
pub proof fn law_nresults_roundtrip(v: NResults, ns: Seq<(Seq<char>, Seq<char>)>, evs: Seq<XmlEvent>)
    requires
        reads_back(evs, v.qwrite_spec(ns)),
    ensures
        <NResults as QRead>::qread_spec(evs, start_state()).0 == Ok::<u64, ParsingError>(v.0),
{
    lemma_text_element(evs, "nresults"@, ns, decimal(v.0 as nat));
    lemma_decimal_reads_back(v.0);
}

/// A written limit reads back as the same limit.
pub proof fn law_limit_roundtrip(v: Limit, ns: Seq<(Seq<char>, Seq<char>)>, evs: Seq<XmlEvent>)
    requires
        reads_back(evs, v.qwrite_spec(ns)),
    ensures
        <Limit as QRead>::qread_spec(evs, start_state()).0 == Ok::<u64, ParsingError>(v@),
{
    let ws = v.qwrite_spec(ns);
    let inner = text_element(seq!['D', ':'] + "nresults"@, Seq::empty(), decimal(v.0.0 as nat));
    assert(ws == seq![WView::Start(seq!['D', ':'] + "limit"@, ns)] + inner + seq![
        WView::End(seq!['D', ':'] + "limit"@),
    ]);
    assert(event_reads_as(evs[0], ws[0]));
    assert(event_reads_as(evs[4], ws[4]));
    lemma_dav_tag(evs[0], ws[0], "limit"@);
    let rest = evs.skip(1);
    let s1 = RState { pos: 1, prev: Some(0), parents: seq![0int] };
    assert(Seq::<int>::empty().push(0) == seq![0int]);
    assert(open_spec(evs, start_state(), DAV_URN@, "limit"@) == (Ok::<int, ParsingError>(0), s1));
    // The nresults element, read from position 1.
    assert(event_reads_as(evs[1], ws[1]));
    assert(event_reads_as(evs[2], ws[2]));
    assert(event_reads_as(evs[3], ws[3]));
    lemma_dav_tag(evs[1], ws[1], "nresults"@);
    lemma_dav_tag(evs[3], ws[3], "nresults"@);
    let s2 = RState { pos: 2, prev: Some(1), parents: seq![0int, 1int] };
    assert(seq![0int].push(1) == seq![0int, 1int]);
    assert(open_spec(evs, s1, DAV_URN@, "nresults"@) == (Ok::<int, ParsingError>(1), s2));
    let s3 = RState { pos: 3, prev: Some(2), parents: seq![0int, 1int] };
    let t = decimal(v.0.0 as nat);
    assert(Seq::<char>::empty() + t =~= t);
    assert(text_loop(evs, s3, t) == (Ok::<Seq<char>, ParsingError>(t), s3));
    assert(tag_string_spec(evs, s2) == (Ok::<Seq<char>, ParsingError>(t), s3));
    lemma_decimal_reads_back(v.0.0);
    let s4 = RState { pos: 4, prev: Some(3), parents: seq![0int] };
    assert(seq![0int, 1int].drop_last() == seq![0int]);
    assert(close_spec(evs, s3) == (Ok::<int, ParsingError>(3), s4));
    assert(<NResults as QRead>::qread_spec(evs, s1) == (Ok::<u64, ParsingError>(v.0.0), s4));
    assert(find_loop::<NResults>(evs, s1) == (Ok::<u64, ParsingError>(v.0.0), s4));
    assert(find_spec::<NResults>(evs, s1) == (Ok::<u64, ParsingError>(v.0.0), s4));
    assert(seq![0int].drop_last() == Seq::<int>::empty());
    assert(close_spec(evs, s4).0 is Ok);
}

/// Reading the atoms `keys[i..]` where the current event is the empty
/// element `ns:keys[j]` and no key before it is that name: the index `j`,
/// and the cursor after it.
proof fn lemma_atoms_find(evs: Seq<XmlEvent>, st: RState, ns: Seq<char>, keys: Seq<Seq<char>>, i: int, j: int)
    requires
        state_ok(evs, st),
        0 <= i <= j < keys.len(),
        evs[st.pos] is Empty,
        is_tag_spec(evs[st.pos], ns, keys[j]),
        forall|k: int| i <= k < j ==> !is_tag_spec(evs[st.pos], ns, #[trigger] keys[k]),
        !(evs[st.pos + 1] is Fail),
    ensures
        atoms_spec(evs, st, ns, keys, i) == (
            Ok::<int, ParsingError>(j),
            RState { pos: st.pos + 1, prev: Some(st.pos), parents: st.parents },
        ),
    decreases j - i,
{
    if i < j {
        assert(!is_tag_spec(evs[st.pos], ns, keys[i]));
        lemma_atoms_find(evs, st, ns, keys, i + 1, j);
    } else {
        let s1 = RState { pos: st.pos, prev: Some(st.pos), parents: st.parents.push(st.pos) };
        assert(pop_parent(s1).parents == st.parents);
        assert(!parent_has_child_spec(evs, s1));
    }
}

/// No atom reads where the current event is no tag.
proof fn lemma_atoms_none(evs: Seq<XmlEvent>, st: RState, ns: Seq<char>, keys: Seq<Seq<char>>, i: int)
    requires
        state_ok(evs, st),
        0 <= i,
        !(evs[st.pos] is Empty) && !(evs[st.pos] is Start),
    ensures
        atoms_spec(evs, st, ns, keys, i) == (Err::<int, ParsingError>(ParsingError::Recoverable), st),
    decreases keys.len() - i,
{
    if i < keys.len() {
        lemma_atoms_none(evs, st, ns, keys, i + 1);
    }
}

/// The privilege names are distinct, and each privilege is named at its
/// position.
proof fn lemma_privilege_names()
    ensures
        forall|a: int, b: int|
            0 <= a < 11 && 0 <= b < 11 && a != b ==> #[trigger] privilege_names()[a] != #[trigger] privilege_names()[b],
        privilege_names().len() == 11,
        forall|a: int| 0 <= a < 11 ==> privilege_names()[a] == privilege_name(#[trigger] privilege_at(a)),
{
    reveal_strlit("read");
    reveal_strlit("write");
    reveal_strlit("write-properties");
    reveal_strlit("write-content");
    reveal_strlit("unlock");
    reveal_strlit("read-acl");
    reveal_strlit("read-current-user-privilege-set");
    reveal_strlit("write-acl");
    reveal_strlit("bind");
    reveal_strlit("unbind");
    reveal_strlit("all");
    let n = privilege_names();
    assert(n[0].len() == 4 && n[1].len() == 5 && n[2].len() == 16 && n[3].len() == 13);
    assert(n[4].len() == 6 && n[5].len() == 8 && n[6].len() == 31 && n[7].len() == 9);
    assert(n[8].len() == 4 && n[9].len() == 6 && n[10].len() == 3);
    assert forall|a: int, b: int| 0 <= a < 11 && 0 <= b < 11 && a != b implies #[trigger] n[a] != #[trigger] n[b] by {
        if (a == 0 && b == 8) || (a == 8 && b == 0) {
            assert(n[a][0] != n[b][0]);
        } else if (a == 4 && b == 9) || (a == 9 && b == 4) {
            assert(n[a][3] != n[b][3]);
        } else {
            assert(n[a].len() != n[b].len());
        }
    }
}

/// The position of a privilege among the names.
pub open spec fn privilege_index(p: Privilege) -> int {
    match p {
        Privilege::Read => 0,
        Privilege::Write => 1,
        Privilege::WriteProperties => 2,
        Privilege::WriteContent => 3,
        Privilege::Unlock => 4,
        Privilege::ReadAcl => 5,
        Privilege::ReadCurrentUserPrivilegeSet => 6,
        Privilege::WriteAcl => 7,
        Privilege::Bind => 8,
        Privilege::Unbind => 9,
        Privilege::All => 10,
    }
}

/// An empty privilege element read back at the cursor reads as that
/// privilege.
proof fn lemma_privilege_at(evs: Seq<XmlEvent>, st: RState, p: Privilege, ns: Seq<(Seq<char>, Seq<char>)>)
    requires
        state_ok(evs, st),
        event_reads_as(evs[st.pos], WView::Empty(seq!['D', ':'] + privilege_name(p), ns)),
        !(evs[st.pos + 1] is Fail),
    ensures
        <Privilege as QRead>::qread_spec(evs, st) == (
            Ok::<Privilege, ParsingError>(p),
            RState { pos: st.pos + 1, prev: Some(st.pos), parents: st.parents },
        ),
{
    lemma_privilege_names();
    let j = privilege_index(p);
    assert(privilege_at(j) == p);
    lemma_dav_tag(evs[st.pos], WView::Empty(seq!['D', ':'] + privilege_name(p), ns), privilege_name(p));
    assert forall|k: int| 0 <= k < j implies !is_tag_spec(evs[st.pos], DAV_URN@, #[trigger] privilege_names()[k]) by {
        assert(privilege_names()[k] != privilege_names()[j]);
    }
    lemma_atoms_find(evs, st, DAV_URN@, privilege_names(), 0, j);
}

/// A written privilege reads back as the same privilege.
pub proof fn law_privilege_roundtrip(v: Privilege, ns: Seq<(Seq<char>, Seq<char>)>, evs: Seq<XmlEvent>)
    requires
        reads_back(evs, v.qwrite_spec(ns)),
    ensures
        <Privilege as QRead>::qread_spec(evs, start_state()).0 == Ok::<Privilege, ParsingError>(v),
{
    let ws = v.qwrite_spec(ns);
    assert(event_reads_as(evs[0], ws[0]));
    lemma_privilege_at(evs, start_state(), v, ns);
}

/// The events a list of privileges writes, one by one.
proof fn lemma_privileges_written(ps: Seq<Privilege>)
    ensures
        privileges_written(ps).len() == ps.len(),
        forall|k: int|
            0 <= k < ps.len() ==> #[trigger] privileges_written(ps)[k] == WView::Empty(
                seq!['D', ':'] + privilege_name(ps[k]),
                Seq::empty(),
            ),
    decreases ps.len(),
{
    if ps.len() > 0 {
        lemma_privileges_written(ps.drop_last());
    }
}

/// The cursor after `k` privileges inside the privilege element.
pub open spec fn after_privileges(k: int) -> RState {
    RState { pos: k + 1, prev: Some(k), parents: seq![0int] }
}

/// Reading the privileges from the `k`-th on gives what reading them all
/// gives.
proof fn lemma_privileges_loop(evs: Seq<XmlEvent>, ps: Seq<Privilege>, ns: Seq<(Seq<char>, Seq<char>)>, k: int)
    requires
        reads_back(evs, seq![WView::Start(seq!['D', ':'] + "privilege"@, ns)] + privileges_written(ps) + seq![
            WView::End(seq!['D', ':'] + "privilege"@),
        ]),
        evs[0] is Start,
        0 <= k <= ps.len(),
    ensures
        privileges_loop(evs, after_privileges(k), ps.take(k)) == (
            Ok::<Seq<Privilege>, ParsingError>(ps),
            after_privileges(ps.len() as int),
        ),
    decreases ps.len() - k,
{
    let ws = seq![WView::Start(seq!['D', ':'] + "privilege"@, ns)] + privileges_written(ps) + seq![
        WView::End(seq!['D', ':'] + "privilege"@),
    ];
    lemma_privileges_written(ps);
    let st = after_privileges(k);
    assert(parent_has_child_spec(evs, st));
    if k < ps.len() {
        assert(ws[k + 1] == WView::Empty(seq!['D', ':'] + privilege_name(ps[k]), Seq::empty()));
        assert(event_reads_as(evs[k + 1], ws[k + 1]));
        assert(ws[k + 2] is Empty || ws[k + 2] is End);
        assert(event_reads_as(evs[k + 2], ws[k + 2]));
        lemma_privilege_at(evs, st, ps[k], Seq::empty());
        assert(ps.take(k).push(ps[k]) == ps.take(k + 1));
        lemma_privileges_loop(evs, ps, ns, k + 1);
        assert(after_privileges(k + 1) == (RState { pos: st.pos + 1, prev: Some(st.pos), parents: st.parents }));
    } else {
        assert(ps.take(k) == ps);
        assert(event_reads_as(evs[k + 1], ws[k + 1]));
        lemma_atoms_none(evs, st, DAV_URN@, privilege_names(), 0);
    }
}

/// A written privilege set reads back as the same privileges, in order.
pub proof fn law_privilege_set_roundtrip(v: PrivilegeSet, ns: Seq<(Seq<char>, Seq<char>)>, evs: Seq<XmlEvent>)
    requires
        reads_back(evs, v.qwrite_spec(ns)),
    ensures
        <PrivilegeSet as QRead>::qread_spec(evs, start_state()).0 == Ok::<Seq<Privilege>, ParsingError>(v@),
{
    let ps = v.0@;
    let ws = v.qwrite_spec(ns);
    lemma_privileges_written(ps);
    assert(ws == seq![WView::Start(seq!['D', ':'] + "privilege"@, ns)] + privileges_written(ps) + seq![
        WView::End(seq!['D', ':'] + "privilege"@),
    ]);
    assert(event_reads_as(evs[0], ws[0]));
    assert(event_reads_as(evs[1], ws[1]));
    lemma_dav_tag(evs[0], ws[0], "privilege"@);
    let n = ps.len() as int;
    assert(ws[n + 1] == WView::End(seq!['D', ':'] + "privilege"@));
    assert(event_reads_as(evs[n + 1], ws[n + 1]));
    lemma_dav_tag(evs[n + 1], ws[n + 1], "privilege"@);
    assert(Seq::<int>::empty().push(0) == seq![0int]);
    assert(open_start_spec(evs, start_state(), DAV_URN@, "privilege"@) == (Ok::<int, ParsingError>(0), after_privileges(0)));
    assert(ps.take(0) == Seq::<Privilege>::empty());
    lemma_privileges_loop(evs, ps, ns, 0);
    assert(seq![0int].drop_last() == Seq::<int>::empty());
    assert(close_loop(evs, after_privileges(n)) == next_spec(evs, pop_parent(after_privileges(n))));
}

/// A written user reads back as the same user.
pub proof fn law_user_roundtrip(v: User, ns: Seq<(Seq<char>, Seq<char>)>, evs: Seq<XmlEvent>)
    requires
        reads_back(evs, v.qwrite_spec(ns)),
    ensures
        <User as QRead>::qread_spec(evs, start_state()).0 == Ok::<Option<Seq<char>>, ParsingError>(v@),
{
    let ws = v.qwrite_spec(ns);
    assert(event_reads_as(evs[0], ws[0]));
    reveal_strlit("unauthenticated");
    reveal_strlit("href");
    match v {
        User::Unauthenticated => {
            lemma_dav_tag(evs[0], ws[0], "unauthenticated"@);
            lemma_atoms_find(evs, start_state(), DAV_URN@, seq!["unauthenticated"@], 0, 0);
        },
        User::Authenticated(h) => {
            lemma_text_element(evs, "href"@, ns, h.0@);
            lemma_dav_tag(evs[0], ws[0], "href"@);
            assert(!is_tag_spec(evs[0], DAV_URN@, "unauthenticated"@)) by {
                assert("href"@ != "unauthenticated"@) by {
                    assert("href"@.len() != "unauthenticated"@.len());
                }
            }
            assert(atoms_spec(evs, start_state(), DAV_URN@, seq!["unauthenticated"@], 1) == (
                Err::<int, ParsingError>(ParsingError::Recoverable),
                start_state(),
            ));
        },
    }
}

/// A written ACL property name reads back as the same name.
pub proof fn law_acl_property_request_roundtrip(
    v: AclPropertyRequest,
    ns: Seq<(Seq<char>, Seq<char>)>,
    evs: Seq<XmlEvent>,
)
    requires
        reads_back(evs, v.qwrite_spec(ns)),
    ensures
        <AclPropertyRequest as QRead>::qread_spec(evs, start_state()).0 == Ok::<AclPropertyRequest, ParsingError>(v),
{
    let ws = v.qwrite_spec(ns);
    assert(event_reads_as(evs[0], ws[0]));
    reveal_strlit("owner");
    reveal_strlit("current-user-principal");
    reveal_strlit("current-user-privilege-set");
    let n = acl_property_names();
    assert(n[0].len() == 5 && n[1].len() == 22 && n[2].len() == 26);
    let j: int = match v {
        AclPropertyRequest::Owner => 0,
        AclPropertyRequest::CurrentUserPrincipal => 1,
        AclPropertyRequest::CurrentUserPrivilegeSet => 2,
    };
    assert(n[j] == acl_property_name(v));
    lemma_dav_tag(evs[0], ws[0], n[j]);
    assert forall|k: int| 0 <= k < j implies !is_tag_spec(evs[0], DAV_URN@, #[trigger] n[k]) by {
        assert(n[k].len() != n[j].len());
    }
    lemma_atoms_find(evs, start_state(), DAV_URN@, n, 0, j);
}

/// The written name `C:x`, read back, is the CardDAV element `x`.
proof fn lemma_card_tag(e: XmlEvent, q: Seq<char>, ns: Seq<(Seq<char>, Seq<char>)>, x: Seq<char>)
    requires
        event_reads_as(e, WView::Empty(q, ns)),
        q == seq!['C', ':'] + x,
    ensures
        is_tag_spec(e, CARD_URN@, x),
        e is Empty,
{
    assert(q.skip(2) =~= x);
    assert(q[0] == 'C' && q[1] == ':');
}

/// No atom among `keys[i..]` reads where the current tag is none of them.
proof fn lemma_atoms_miss(evs: Seq<XmlEvent>, st: RState, ns: Seq<char>, keys: Seq<Seq<char>>, i: int)
    requires
        state_ok(evs, st),
        0 <= i,
        forall|k: int| i <= k < keys.len() ==> !is_tag_spec(evs[st.pos], ns, #[trigger] keys[k]),
    ensures
        atoms_spec(evs, st, ns, keys, i) == (Err::<int, ParsingError>(ParsingError::Recoverable), st),
    decreases keys.len() - i,
{
    if i < keys.len() {
        assert(!is_tag_spec(evs[st.pos], ns, keys[i]));
        lemma_atoms_miss(evs, st, ns, keys, i + 1);
    }
}

/// A written CardDAV property name without content reads back as the same
/// name.
pub proof fn law_card_property_request_roundtrip(
    v: CardPropertyRequest,
    ns: Seq<(Seq<char>, Seq<char>)>,
    evs: Seq<XmlEvent>,
)
    requires
        reads_back(evs, v.qwrite_spec(ns)),
        !(v is AddressData),
    ensures
        <CardPropertyRequest as QRead>::qread_spec(evs, start_state()).0 == Ok::<_, ParsingError>(v@),
{
    let ws = v.qwrite_spec(ns);
    assert(event_reads_as(evs[0], ws[0]));
    reveal_strlit("addressbook-description");
    reveal_strlit("supported-address-data");
    reveal_strlit("max-resource-size");
    reveal_strlit("addressbook-home-set");
    reveal_strlit("principal-address");
    reveal_strlit("supported-collation-set");
    let n = card_property_names();
    assert(n[0].len() == 23 && n[1].len() == 22 && n[2].len() == 17);
    assert(n[3].len() == 20 && n[4].len() == 17 && n[5].len() == 23);
    let j: int = match v {
        CardPropertyRequest::AddressbookDescription => 0,
        CardPropertyRequest::SupportedAddressData => 1,
        CardPropertyRequest::MaxResourceSize => 2,
        CardPropertyRequest::AddressbookHomeSet => 3,
        CardPropertyRequest::PrincipalAddress => 4,
        _ => 5,
    };
    assert(n[j] == card_property_name(v));
    lemma_card_tag(evs[0], seq!['C', ':'] + n[j], ns, n[j]);
    assert forall|k: int| 0 <= k < j implies !is_tag_spec(evs[0], CARD_URN@, #[trigger] n[k]) by {
        if n[k].len() == n[j].len() {
            assert(n[k][0] != n[j][0]);
        }
    }
    lemma_atoms_find(evs, start_state(), CARD_URN@, n, 0, j);
}

/// A written CardDAV resource type reads back as the same type.
pub proof fn law_card_resource_type_roundtrip(v: CardResourceType, ns: Seq<(Seq<char>, Seq<char>)>, evs: Seq<XmlEvent>)
    requires
        reads_back(evs, v.qwrite_spec(ns)),
    ensures
        <CardResourceType as QRead>::qread_spec(evs, start_state()).0 == Ok::<_, ParsingError>(v@),
{
    let ws = v.qwrite_spec(ns);
    assert(event_reads_as(evs[0], ws[0]));
    lemma_card_tag(evs[0], seq!['C', ':'] + "addressbook"@, ns, "addressbook"@);
    lemma_atoms_find(evs, start_state(), CARD_URN@, seq!["addressbook"@], 0, 0);
}

/// A written CardDAV report name reads back as the same name.
pub proof fn law_card_report_name_roundtrip(v: CardReportTypeName, ns: Seq<(Seq<char>, Seq<char>)>, evs: Seq<XmlEvent>)
    requires
        reads_back(evs, v.qwrite_spec(ns)),
    ensures
        <CardReportTypeName as QRead>::qread_spec(evs, start_state()).0 == Ok::<_, ParsingError>(v@),
{
    let ws = v.qwrite_spec(ns);
    assert(event_reads_as(evs[0], ws[0]));
    reveal_strlit("addressbook-query");
    reveal_strlit("addressbook-multiget");
    let n = seq!["addressbook-query"@, "addressbook-multiget"@];
    assert(n[0].len() == 17 && n[1].len() == 20);
    let j: int = if v == CardReportTypeName::Query { 0 } else { 1 };
    lemma_card_tag(evs[0], seq!['C', ':'] + n[j], ns, n[j]);
    if j == 1 {
        assert(!is_tag_spec(evs[0], CARD_URN@, n[0]));
    }
    lemma_atoms_find(evs, start_state(), CARD_URN@, n, 0, j);
}

/// A written CardDAV condition code without content reads back as the
/// same code.
pub proof fn law_card_violation_roundtrip(v: CardViolation, ns: Seq<(Seq<char>, Seq<char>)>, evs: Seq<XmlEvent>)
    requires
        reads_back(evs, v.qwrite_spec(ns)),
        !(v is NoUidConflict),
        !(v is SupportedFilter),
    ensures
        <CardViolation as QRead>::qread_spec(evs, start_state()).0 == Ok::<_, ParsingError>(v@),
{
    let ws = v.qwrite_spec(ns);
    assert(event_reads_as(evs[0], ws[0]));
    reveal_strlit("supported-address-data-conversion");
    reveal_strlit("supported-address-data");
    reveal_strlit("valid-address-data");
    reveal_strlit("no-uid-conflict");
    reveal_strlit("addressbook-collection-location-ok");
    reveal_strlit("max-resource-size");
    reveal_strlit("supported-collation");
    reveal_strlit("number-of-matches-within-limits");
    let b = violation_names_before();
    let a = violation_names_after();
    assert(b[0].len() == 33 && b[1].len() == 22 && b[2].len() == 18);
    assert(a[0].len() == 34 && a[1].len() == 17 && a[2].len() == 19);
    assert("no-uid-conflict"@.len() == 15);
    let st = start_state();
    if v is NumberOfMatchesWithinLimits {
        let x = "number-of-matches-within-limits"@;
        lemma_dav_tag(evs[0], ws[0], x);
        assert(x.len() == 31);
        lemma_atoms_miss(evs, st, CARD_URN@, b, 0);
        lemma_atoms_miss(evs, st, CARD_URN@, a, 0);
        lemma_atoms_find(evs, st, DAV_URN@, seq![x], 0, 0);
    } else {
        let x = card_violation_name(v);
        lemma_card_tag(evs[0], seq!['C', ':'] + x, ns, x);
        if v is SupportedAddressDataConversion || v is SupportedAddressData || v is ValidAddressData {
            let j: int = if v is SupportedAddressDataConversion { 0 } else if v is SupportedAddressData { 1 } else { 2 };
            assert(b[j] == x);
            lemma_atoms_find(evs, st, CARD_URN@, b, 0, j);
        } else {
            let j: int = if v is AddressbookCollectionLocationOk { 0 } else if v is MaxResourceSize { 1 } else { 2 };
            assert(a[j] == x);
            assert forall|k: int| 0 <= k < b.len() implies !is_tag_spec(evs[0], CARD_URN@, #[trigger] b[k]) by {
                if k == 1 && j == 1 {
                    assert(b[k].len() != x.len());
                }
            }
            lemma_atoms_miss(evs, st, CARD_URN@, b, 0);
            assert(!is_tag_spec(evs[0], CARD_URN@, "no-uid-conflict"@));
            lemma_atoms_find(evs, st, CARD_URN@, a, 0, j);
        }
    }
}

/// Opening the first of the elements `ns:keys[i..]` where the current
/// event is the opening tag `ns:keys[j]` and no key before it is that
/// name: the index `j`, and the cursor inside the element.
proof fn lemma_open_first_find(evs: Seq<XmlEvent>, st: RState, ns: Seq<char>, keys: Seq<Seq<char>>, i: int, j: int)
    requires
        state_ok(evs, st),
        0 <= i <= j < keys.len(),
        evs[st.pos] is Start,
        is_tag_spec(evs[st.pos], ns, keys[j]),
        forall|k: int| i <= k < j ==> !is_tag_spec(evs[st.pos], ns, #[trigger] keys[k]),
        !(evs[st.pos + 1] is Fail),
    ensures
        open_first_spec(evs, st, ns, keys, i) == (
            Ok::<int, ParsingError>(j),
            RState { pos: st.pos + 1, prev: Some(st.pos), parents: st.parents.push(st.pos) },
        ),
    decreases j - i,
{
    if i < j {
        assert(!is_tag_spec(evs[st.pos], ns, keys[i]));
        lemma_open_first_find(evs, st, ns, keys, i + 1, j);
    }
}

/// Reading the text of an element whose only child is the text `t`, from
/// that text: the text, and the cursor at the closing tag.
proof fn lemma_text_at(evs: Seq<XmlEvent>, st: RState, t: Seq<char>)
    requires
        state_ok(evs, st),
        parent_has_child_spec(evs, st),
        evs[st.pos] matches XmlEvent::Text(Some(x)) && x@ == t,
        st.pos + 1 < evs.len(),
        evs[st.pos + 1] is End,
    ensures
        tag_string_spec(evs, st) == (
            Ok::<Seq<char>, ParsingError>(t),
            RState { pos: st.pos + 1, prev: Some(st.pos), parents: st.parents },
        ),
{
    let s1 = RState { pos: st.pos + 1, prev: Some(st.pos), parents: st.parents };
    assert(next_spec(evs, st) == (Ok::<int, ParsingError>(st.pos), s1));
    assert(Seq::<char>::empty() + t =~= t);
    assert(text_loop(evs, s1, t) == (Ok::<Seq<char>, ParsingError>(t), s1));
}

/// A written CardDAV size limit, address book home or principal address
/// reads back as the same property.
#[verifier::spinoff_prover]
#[verifier::rlimit(40)]
pub proof fn law_card_property_roundtrip(v: CardProperty, ns: Seq<(Seq<char>, Seq<char>)>, evs: Seq<XmlEvent>)
    requires
        reads_back(evs, v.qwrite_spec(ns)),
        v is MaxResourceSize || v is AddressbookHomeSet || v is PrincipalAddress,
    ensures
        <CardProperty as QRead>::qread_spec(evs, start_state()).0 == Ok::<_, ParsingError>(v@),
{
    let ws = v.qwrite_spec(ns);
    assert(event_reads_as(evs[0], ws[0]));
    reveal_strlit("addressbook-description");
    reveal_strlit("supported-address-data");
    reveal_strlit("max-resource-size");
    reveal_strlit("addressbook-home-set");
    reveal_strlit("principal-address");
    reveal_strlit("supported-collation-set");
    reveal_strlit("href");
    let n = card_property_names();
    assert(n[0].len() == 23 && n[1].len() == 22 && n[2].len() == 17);
    assert(n[3].len() == 20 && n[4].len() == 17 && n[5].len() == 23);
    let j: int = if v is MaxResourceSize { 2 } else if v is AddressbookHomeSet { 3 } else { 4 };
    let q = card_q(n[j]);
    assert(q.skip(2) =~= n[j]);
    assert(ws[0] == WView::Start(q, ns));
    assert forall|k: int| 0 <= k < j implies !is_tag_spec(evs[0], CARD_URN@, #[trigger] n[k]) by {
        if n[k].len() == n[j].len() {
            assert(n[k][0] != n[j][0]);
        }
    }
    let st = start_state();
    let s1 = RState { pos: 1, prev: Some(0), parents: seq![0int] };
    assert(Seq::<int>::empty().push(0) == seq![0int]);
    lemma_open_first_find(evs, st, CARD_URN@, n, 0, j);
    assert(open_first_spec(evs, st, CARD_URN@, n, 0) == (Ok::<int, ParsingError>(j), s1));
    assert(parent_has_child_spec(evs, s1));
    match v {
        CardProperty::MaxResourceSize(sz) => {
            let d = decimal(sz as nat);
            assert(event_reads_as(evs[1], ws[1]));
            assert(event_reads_as(evs[2], ws[2]));
            lemma_text_at(evs, s1, d);
            let s2 = RState { pos: 2, prev: Some(1), parents: seq![0int] };
            lemma_decimal_reads_back(sz);
            assert(seq![0int].drop_last() == Seq::<int>::empty());
            assert(close_spec(evs, s2) == next_spec(evs, pop_parent(s2)));
            assert(card_value_spec(evs, s1, j).0 == Ok::<_, ParsingError>(v@));
        },
        CardProperty::AddressbookHomeSet(h) | CardProperty::PrincipalAddress(h) => {
            let hw = h.qwrite_spec(Seq::empty());
            assert(ws == around(q, ns, hw));
            assert(ws[1] == hw[0] && ws[2] == hw[1] && ws[3] == hw[2] && ws[4] == WView::End(q));
            assert(event_reads_as(evs[1], ws[1]));
            assert(event_reads_as(evs[2], ws[2]));
            assert(event_reads_as(evs[3], ws[3]));
            assert(event_reads_as(evs[4], ws[4]));
            lemma_dav_tag(evs[1], ws[1], "href"@);
            let s2 = RState { pos: 2, prev: Some(1), parents: seq![0int, 1int] };
            assert(seq![0int].push(1) == seq![0int, 1int]);
            assert(open_spec(evs, s1, DAV_URN@, "href"@) == (Ok::<int, ParsingError>(1), s2));
            assert(parent_has_child_spec(evs, s2));
            lemma_text_at(evs, s2, h.0@);
            let s3 = RState { pos: 3, prev: Some(2), parents: seq![0int, 1int] };
            let s4 = RState { pos: 4, prev: Some(3), parents: seq![0int] };
            assert(seq![0int, 1int].drop_last() == seq![0int]);
            assert(close_spec(evs, s3) == (Ok::<int, ParsingError>(3), s4));
            assert(href_spec(evs, s1) == (Ok::<Seq<char>, ParsingError>(h.0@), s4));
            assert(<Href as QRead>::qread_spec(evs, s1) == (Ok::<Seq<char>, ParsingError>(h.0@), s4));
            assert(find_loop::<Href>(evs, s1) == (Ok::<Seq<char>, ParsingError>(h.0@), s4));
            assert(find_spec::<Href>(evs, s1) == (Ok::<Seq<char>, ParsingError>(h.0@), s4));
            assert(seq![0int].drop_last() == Seq::<int>::empty());
            assert(close_spec(evs, s4) == next_spec(evs, pop_parent(s4)));
            assert(card_value_spec(evs, s1, j).0 == Ok::<_, ParsingError>(v@));
        },
        _ => {},
    }
}

/// The digits of a number have no white space to trim.
proof fn lemma_decimal_trimmed(v: nat)
    ensures
        trimmed(decimal(v)) == decimal(v),
{
    lemma_decimal_value(v);
    let d = decimal(v);
    assert('0' <= d[0] <= '9');
    assert('0' <= d.last() <= '9');
    assert(!is_white_space(d[0]));
    assert(!is_white_space(d.last()));
    assert(lead_ws(d) == 0);
    assert(d.skip(0) =~= d);
    assert(trail_ws(d) == 0);
    assert(d.take(d.len() as int) =~= d);
}

/// A written CardDAV limit reads back as the same limit.
pub proof fn law_card_limit_roundtrip(v: CardLimit, ns: Seq<(Seq<char>, Seq<char>)>, evs: Seq<XmlEvent>)
    requires
        reads_back(evs, v.qwrite_spec(ns)),
    ensures
        <CardLimit as QRead>::qread_spec(evs, start_state()).0 == Ok::<u64, ParsingError>(v@),
{
    let ws = v.qwrite_spec(ns);
    reveal_strlit("limit");
    reveal_strlit("nresults");
    let ql = card_q("limit"@);
    let qn = card_q("nresults"@);
    assert(ql.skip(2) =~= "limit"@);
    assert(qn.skip(2) =~= "nresults"@);
    let d = decimal(v.nresults as nat);
    assert(ws[0] == WView::Start(ql, ns));
    assert(ws[1] == WView::Start(qn, Seq::empty()));
    assert(ws[2] == WView::Text(d));
    assert(ws[3] == WView::End(qn));
    assert(ws[4] == WView::End(ql));
    assert(event_reads_as(evs[0], ws[0]));
    assert(event_reads_as(evs[1], ws[1]));
    assert(event_reads_as(evs[2], ws[2]));
    assert(event_reads_as(evs[3], ws[3]));
    assert(event_reads_as(evs[4], ws[4]));
    let st = start_state();
    let s1 = RState { pos: 1, prev: Some(0), parents: seq![0int] };
    assert(Seq::<int>::empty().push(0) == seq![0int]);
    assert(open_spec(evs, st, CARD_URN@, "limit"@) == (Ok::<int, ParsingError>(0), s1));
    let s2 = RState { pos: 2, prev: Some(1), parents: seq![0int, 1int] };
    assert(seq![0int].push(1) == seq![0int, 1int]);
    assert(open_spec(evs, s1, CARD_URN@, "nresults"@) == (Ok::<int, ParsingError>(1), s2));
    assert(parent_has_child_spec(evs, s2));
    lemma_text_at(evs, s2, d);
    let s3 = RState { pos: 3, prev: Some(2), parents: seq![0int, 1int] };
    lemma_decimal_trimmed(v.nresults as nat);
    lemma_decimal_reads_back(v.nresults);
    let s4 = RState { pos: 4, prev: Some(3), parents: seq![0int] };
    assert(seq![0int, 1int].drop_last() == seq![0int]);
    assert(close_spec(evs, s3) == (Ok::<int, ParsingError>(3), s4));
    assert(card_limit_loop(evs, s1) == (Ok::<Option<u64>, ParsingError>(Some(v.nresults)), s4));
    assert(seq![0int].drop_last() == Seq::<int>::empty());
    assert(close_spec(evs, s4) == next_spec(evs, pop_parent(s4)));
}

/// Whether a name read back is the written `qname`, where the `D` prefix
/// is bound to the DAV: namespace and the `C` prefix to the CalDAV one.
pub open spec fn cal_name_reads_as(n: XmlName, q: Seq<char>) -> bool {
    &&& n.qname@ == q
    &&& q.len() >= 2 && q[0] == 'D' && q[1] == ':' ==> (n.ns matches Some(u) && u@ == DAV_URN@) && n.local@ == q.skip(2)
    &&& q.len() >= 2 && q[0] == 'C' && q[1] == ':' ==> (n.ns matches Some(u) && u@ == CAL_URN@) && n.local@ == q.skip(2)
}

/// Whether the attributes read back are the written ones, in order, each
/// value unescaped.
pub open spec fn attrs_read_as(got: Seq<(String, Option<String>)>, written: Seq<(Seq<char>, Seq<char>)>) -> bool {
    &&& got.len() == written.len()
    &&& forall|i: int| 0 <= i < got.len() ==> (#[trigger] got[i]).0@ == written[i].0 && (got[i].1 matches Some(v) && v@ == written[i].1)
}

/// `event_reads_as` with the `C` prefix bound to the CalDAV namespace, and
/// the attributes of each tag read back as written.
pub open spec fn cal_event_reads_as(e: XmlEvent, w: WView) -> bool {
    match (e, w) {
        (XmlEvent::Start(t), WView::Start(q, a)) => cal_name_reads_as(t.name, q) && attrs_read_as(t.attrs@, a),
        (XmlEvent::Empty(t), WView::Empty(q, a)) => cal_name_reads_as(t.name, q) && attrs_read_as(t.attrs@, a),
        (XmlEvent::End(n), WView::End(q)) => cal_name_reads_as(n, q),
        (XmlEvent::Text(Some(s)), WView::Text(t)) => s@ == t,
        _ => false,
    }
}

/// `reads_back` with the `C` prefix bound to the CalDAV namespace.
pub open spec fn cal_reads_back(evs: Seq<XmlEvent>, ws: Seq<WView>) -> bool {
    &&& doc_ok(evs)
    &&& ws.len() < evs.len()
    &&& forall|i: int| 0 <= i < ws.len() ==> cal_event_reads_as(#[trigger] evs[i], ws[i])
    &&& !(evs[ws.len() as int] is Fail)
}

/// The written empty element `P:x`, read back, is the element `x` of the
/// namespace the prefix `P` (`D` or `C`) is bound to.
proof fn lemma_cal_tag(e: XmlEvent, q: Seq<char>, ns: Seq<(Seq<char>, Seq<char>)>, p: char, x: Seq<char>)
    requires
        cal_event_reads_as(e, WView::Empty(q, ns)),
        p == 'C' || p == 'D',
        q == seq![p, ':'] + x,
    ensures
        is_tag_spec(e, if p == 'C' { CAL_URN@ } else { DAV_URN@ }, x),
        e is Empty,
{
    assert(q.skip(2) =~= x);
    assert(q[0] == p && q[1] == ':');
}

/// The CalDAV and DAV namespace names differ.
proof fn lemma_cal_dav_differ()
    ensures
        CAL_URN@ != DAV_URN@,
{
    reveal_strlit("urn:ietf:params:xml:ns:caldav");
    reveal_strlit("DAV:");
    assert(CAL_URN@.len() != DAV_URN@.len());
}

/// A written calendar resource type reads back as the same type.
pub proof fn law_cal_resource_type_roundtrip(v: CalResourceType, ns: Seq<(Seq<char>, Seq<char>)>, evs: Seq<XmlEvent>)
    requires
        cal_reads_back(evs, v.qwrite_spec(ns)),
    ensures
        <CalResourceType as QRead>::qread_spec(evs, start_state()).0 == Ok::<_, ParsingError>(v@),
{
    let ws = v.qwrite_spec(ns);
    assert(cal_event_reads_as(evs[0], ws[0]));
    lemma_cal_tag(evs[0], seq!['C', ':'] + "calendar"@, ns, 'C', "calendar"@);
    lemma_atoms_find(evs, start_state(), CAL_URN@, seq!["calendar"@], 0, 0);
}

/// A written CalDAV property name reads back as the same name.
pub proof fn law_cal_property_request_roundtrip(
    v: CalPropertyRequest,
    ns: Seq<(Seq<char>, Seq<char>)>,
    evs: Seq<XmlEvent>,
)
    requires
        cal_reads_back(evs, v.qwrite_spec(ns)),
        !(v is CalendarData),
    ensures
        <CalPropertyRequest as QRead>::qread_spec(evs, start_state()).0 == Ok::<_, ParsingError>(v@),
{
    let ws = v.qwrite_spec(ns);
    assert(cal_event_reads_as(evs[0], ws[0]));
    reveal_strlit("calendar-home-set");
    reveal_strlit("calendar-description");
    reveal_strlit("calendar-timezone");
    reveal_strlit("supported-calendar-component-set");
    reveal_strlit("supported-calendar-data");
    reveal_strlit("max-resource-size");
    reveal_strlit("min-date-time");
    reveal_strlit("max-date-time");
    reveal_strlit("max-instances");
    reveal_strlit("max-attendees-per-instance");
    reveal_strlit("supported-collation-set");
    let n = cal_property_names();
    let j: int = match v {
        CalPropertyRequest::CalendarHomeSet => 0,
        CalPropertyRequest::CalendarDescription => 1,
        CalPropertyRequest::CalendarTimezone => 2,
        CalPropertyRequest::SupportedCalendarComponentSet => 3,
        CalPropertyRequest::SupportedCalendarData => 4,
        CalPropertyRequest::MaxResourceSize => 5,
        CalPropertyRequest::MinDateTime => 6,
        CalPropertyRequest::MaxDateTime => 7,
        CalPropertyRequest::MaxInstances => 8,
        CalPropertyRequest::MaxAttendeesPerInstance => 9,
        _ => 10,
    };
    assert(n[j] == cal_property_name(v));
    assert(cal_property_at(j) == v@);
    lemma_cal_tag(evs[0], seq!['C', ':'] + n[j], ns, 'C', n[j]);
    assert forall|k: int| 0 <= k < j implies !is_tag_spec(evs[0], CAL_URN@, #[trigger] n[k]) by {
        lemma_names_differ(n, k, j);
    }
    lemma_atoms_find(evs, start_state(), CAL_URN@, n, 0, j);
}

/// Two element names of the same list differ where their lengths, or one
/// of their first, second, fifth, tenth or twelfth characters, do.
proof fn lemma_names_differ(n: Seq<Seq<char>>, k: int, j: int)
    requires
        0 <= k < n.len(),
        0 <= j < n.len(),
        n[k].len() != n[j].len() || (n[k].len() >= 12 && (n[k][0] != n[j][0] || n[k][1] != n[j][1] || n[k][4]
            != n[j][4] || n[k][9] != n[j][9] || n[k][11] != n[j][11])),
    ensures
        n[k] != n[j],
{
}

/// Reading a reference written inside an element opened at the first
/// event: the reference, and the element closed after it.
proof fn lemma_cal_href_inside(evs: Seq<XmlEvent>, ws: Seq<WView>, q: Seq<char>, ns: Seq<(Seq<char>, Seq<char>)>, h: Href)
    requires
        cal_reads_back(evs, ws),
        ws == around(q, ns, h.qwrite_spec(Seq::empty())),
        q.len() >= 2 && q[0] == 'C' && q[1] == ':',
        evs[0] is Start,
    ensures
        find_close_spec::<Href>(evs, RState { pos: 1, prev: Some(0), parents: seq![0int] }).0 == Ok::<
            Seq<char>,
            ParsingError,
        >(h@),
{
    reveal_strlit("href");
    let hw = h.qwrite_spec(Seq::empty());
    assert(ws[1] == hw[0] && ws[2] == hw[1] && ws[3] == hw[2] && ws[4] == WView::End(q));
    assert(cal_event_reads_as(evs[1], ws[1]));
    assert(cal_event_reads_as(evs[2], ws[2]));
    assert(cal_event_reads_as(evs[3], ws[3]));
    assert(cal_event_reads_as(evs[4], ws[4]));
    let hq = seq!['D', ':'] + "href"@;
    assert(hq.skip(2) =~= "href"@);
    assert(is_tag_spec(evs[1], DAV_URN@, "href"@));
    let s1 = RState { pos: 1, prev: Some(0), parents: seq![0int] };
    let s2 = RState { pos: 2, prev: Some(1), parents: seq![0int, 1int] };
    assert(seq![0int].push(1) == seq![0int, 1int]);
    assert(parent_has_child_spec(evs, s1));
    assert(open_spec(evs, s1, DAV_URN@, "href"@) == (Ok::<int, ParsingError>(1), s2));
    assert(parent_has_child_spec(evs, s2));
    lemma_text_at(evs, s2, h.0@);
    let s3 = RState { pos: 3, prev: Some(2), parents: seq![0int, 1int] };
    let s4 = RState { pos: 4, prev: Some(3), parents: seq![0int] };
    assert(seq![0int, 1int].drop_last() == seq![0int]);
    assert(close_spec(evs, s3) == (Ok::<int, ParsingError>(3), s4));
    assert(href_spec(evs, s1) == (Ok::<Seq<char>, ParsingError>(h.0@), s4));
    assert(<Href as QRead>::qread_spec(evs, s1) == (Ok::<Seq<char>, ParsingError>(h.0@), s4));
    assert(find_loop::<Href>(evs, s1) == (Ok::<Seq<char>, ParsingError>(h.0@), s4));
    assert(find_spec::<Href>(evs, s1) == (Ok::<Seq<char>, ParsingError>(h.0@), s4));
    assert(seq![0int].drop_last() == Seq::<int>::empty());
    assert(close_spec(evs, s4) == next_spec(evs, pop_parent(s4)));
}

/// A written CalDAV condition code reads back as the same code.
/// `resource-must-be-null` is left out: it is written in the CalDAV
/// namespace and read in the DAV one.
#[verifier::spinoff_prover]
#[verifier::rlimit(60)]
pub proof fn law_cal_violation_roundtrip(v: CalViolation, ns: Seq<(Seq<char>, Seq<char>)>, evs: Seq<XmlEvent>)
    requires
        cal_reads_back(evs, v.qwrite_spec(ns)),
        !(v is ResourceMustBeNull),
        !(v is SupportedFilter),
    ensures
        <CalViolation as QRead>::qread_spec(evs, start_state()).0 == Ok::<_, ParsingError>(v@),
{
    let ws = v.qwrite_spec(ns);
    assert(cal_event_reads_as(evs[0], ws[0]));
    reveal_strlit("resource-must-be-null");
    reveal_strlit("need-privileges");
    reveal_strlit("calendar-collection-location-ok");
    reveal_strlit("valid-calendar-data");
    reveal_strlit("initialize-calendar-collection");
    reveal_strlit("supported-calendar-data");
    reveal_strlit("valid-calendar-object-resource");
    reveal_strlit("supported-calendar-component");
    reveal_strlit("no-uid-conflict");
    reveal_strlit("max-resource-size");
    reveal_strlit("min-date-time");
    reveal_strlit("max-date-time");
    reveal_strlit("max-instances");
    reveal_strlit("max-attendees-per-instance");
    reveal_strlit("valid-filter");
    reveal_strlit("number-of-matches-within-limits");
    lemma_cal_dav_differ();
    let d = cal_violation_dav_names();
    let b = cal_violation_names_before();
    let a = cal_violation_names_after();
    let last = seq!["number-of-matches-within-limits"@];
    let st = start_state();
    if v is NeedPrivileges {
        let x = "need-privileges"@;
        lemma_cal_tag(evs[0], seq!['D', ':'] + x, ns, 'D', x);
        assert(d[0].len() != x.len());
        lemma_atoms_find(evs, st, DAV_URN@, d, 0, 1);
    } else if v is NoUidConflict {
        let x = "no-uid-conflict"@;
        let q = cal_q(x);
        assert(q.skip(2) =~= x);
        assert(q[0] == 'C' && q[1] == ':');
        assert(ws[0] == WView::Start(q, ns));
        assert(is_tag_spec(evs[0], CAL_URN@, x));
        lemma_atoms_miss(evs, st, DAV_URN@, d, 0);
        assert forall|k: int| 0 <= k < b.len() implies !is_tag_spec(evs[0], CAL_URN@, #[trigger] b[k]) by {
            assert(b[k].len() != x.len());
        }
        lemma_atoms_miss(evs, st, CAL_URN@, b, 0);
        let s1 = RState { pos: 1, prev: Some(0), parents: seq![0int] };
        assert(Seq::<int>::empty().push(0) == seq![0int]);
        assert(open_spec(evs, st, CAL_URN@, x) == (Ok::<int, ParsingError>(0), s1));
        lemma_cal_href_inside(evs, ws, q, ns, v->NoUidConflict_0);
    } else {
        let x = cal_violation_name(v);
        lemma_cal_tag(evs[0], seq!['C', ':'] + x, ns, 'C', x);
        lemma_atoms_miss(evs, st, DAV_URN@, d, 0);
        let jb: int = match v {
            CalViolation::CalendarCollectionLocationOk => 0,
            CalViolation::ValidCalendarData => 1,
            CalViolation::InitializeCalendarCollection => 2,
            CalViolation::SupportedCalendarData => 3,
            CalViolation::ValidCalendarObjectResource => 4,
            CalViolation::SupportedCalendarComponent => 5,
            _ => 6,
        };
        if jb < 6 {
            assert(b[jb] == x);
            assert(cal_violation_before_at(jb) == v@);
            assert forall|k: int| 0 <= k < jb implies !is_tag_spec(evs[0], CAL_URN@, #[trigger] b[k]) by {
                lemma_names_differ(b, k, jb);
            }
            lemma_atoms_find(evs, st, CAL_URN@, b, 0, jb);
        } else {
            assert forall|k: int| 0 <= k < b.len() implies !is_tag_spec(evs[0], CAL_URN@, #[trigger] b[k]) by {
                assert(b[k].len() != x.len() || b[k][0] != x[0] || b[k][1] != x[1]);
            }
            lemma_atoms_miss(evs, st, CAL_URN@, b, 0);
            assert(!is_tag_spec(evs[0], CAL_URN@, "no-uid-conflict"@)) by {
                assert("no-uid-conflict"@.len() != x.len() || "no-uid-conflict"@[0] != x[0]);
            }
            let ja: int = match v {
                CalViolation::MaxResourceSize => 0,
                CalViolation::MinDateTime => 1,
                CalViolation::MaxDateTime => 2,
                CalViolation::MaxInstances => 3,
                CalViolation::MaxAttendeesPerInstance => 4,
                CalViolation::ValidFilter => 5,
                _ => 6,
            };
            if ja < 6 {
                assert(a[ja] == x);
                assert(cal_violation_after_at(ja) == v@);
                assert forall|k: int| 0 <= k < ja implies !is_tag_spec(evs[0], CAL_URN@, #[trigger] a[k]) by {
                    lemma_names_differ(a, k, ja);
                }
                lemma_atoms_find(evs, st, CAL_URN@, a, 0, ja);
            } else {
                assert(v is NumberOfMatchesWithinLimits);
                assert forall|k: int| 0 <= k < a.len() implies !is_tag_spec(evs[0], CAL_URN@, #[trigger] a[k]) by {
                    assert(a[k].len() != x.len());
                }
                lemma_atoms_miss(evs, st, CAL_URN@, a, 0);
                reveal_strlit("supported-filter");
                assert(!is_tag_spec(evs[0], CAL_URN@, "supported-filter"@)) by {
                    assert("supported-filter"@.len() != x.len());
                }
                lemma_atoms_find(evs, st, CAL_URN@, last, 0, 0);
            }
        }
    }
}

/// A written CalDAV home, description, time zone, size limit or count reads
/// back as the same property.
#[verifier::spinoff_prover]
#[verifier::rlimit(60)]
pub proof fn law_cal_property_roundtrip(v: CalProperty, ns: Seq<(Seq<char>, Seq<char>)>, evs: Seq<XmlEvent>)
    requires
        cal_reads_back(evs, v.qwrite_spec(ns)),
        declarations_only(ns),
        v is CalendarHomeSet || v is CalendarDescription || v is CalendarTimezone || v is MaxResourceSize
            || v is MaxInstances || v is MaxAttendeesPerInstance,
    ensures
        <CalProperty as QRead>::qread_spec(evs, start_state()).0 == Ok::<_, ParsingError>(v@),
{
    let ws = v.qwrite_spec(ns);
    assert(cal_event_reads_as(evs[0], ws[0]));
    reveal_strlit("calendar-home-set");
    reveal_strlit("calendar-description");
    reveal_strlit("calendar-timezone");
    reveal_strlit("supported-calendar-component-set");
    reveal_strlit("supported-calendar-data");
    reveal_strlit("max-resource-size");
    reveal_strlit("max-date-time");
    reveal_strlit("max-instances");
    reveal_strlit("max-attendees-per-instance");
    reveal_strlit("href");
    let n = cal_value_names();
    let j: int = match v {
        CalProperty::CalendarHomeSet(_) => 0,
        CalProperty::CalendarDescription { .. } => 1,
        CalProperty::CalendarTimezone(_) => 2,
        CalProperty::MaxResourceSize(_) => 5,
        CalProperty::MaxInstances(_) => 7,
        _ => 8,
    };
    let q = cal_q(n[j]);
    assert(q.skip(2) =~= n[j]);
    assert(ws[0] is Start && ws[0]->Start_0 == q);
    assert(q[0] == 'C' && q[1] == ':');
    assert forall|k: int| 0 <= k < j implies !is_tag_spec(evs[0], CAL_URN@, #[trigger] n[k]) by {
        lemma_names_differ(n, k, j);
    }
    let st = start_state();
    let s1 = RState { pos: 1, prev: Some(0), parents: seq![0int] };
    assert(Seq::<int>::empty().push(0) == seq![0int]);
    lemma_open_first_find(evs, st, CAL_URN@, n, 0, j);
    assert(open_first_spec(evs, st, CAL_URN@, n, 0) == (Ok::<int, ParsingError>(j), s1));
    assert(parent_has_child_spec(evs, s1));
    match v {
        CalProperty::CalendarHomeSet(h) => {
            let hw = h.qwrite_spec(Seq::empty());
            assert(ws == around(q, ns, hw));
            assert(ws[1] == hw[0] && ws[2] == hw[1] && ws[3] == hw[2] && ws[4] == WView::End(q));
            assert(cal_event_reads_as(evs[1], ws[1]));
            assert(cal_event_reads_as(evs[2], ws[2]));
            assert(cal_event_reads_as(evs[3], ws[3]));
            assert(cal_event_reads_as(evs[4], ws[4]));
            let hq = seq!['D', ':'] + "href"@;
            assert(hq.skip(2) =~= "href"@);
            assert(is_tag_spec(evs[1], DAV_URN@, "href"@));
            let s2 = RState { pos: 2, prev: Some(1), parents: seq![0int, 1int] };
            assert(seq![0int].push(1) == seq![0int, 1int]);
            assert(open_spec(evs, s1, DAV_URN@, "href"@) == (Ok::<int, ParsingError>(1), s2));
            assert(parent_has_child_spec(evs, s2));
            lemma_text_at(evs, s2, h.0@);
            let s3 = RState { pos: 3, prev: Some(2), parents: seq![0int, 1int] };
            let s4 = RState { pos: 4, prev: Some(3), parents: seq![0int] };
            assert(seq![0int, 1int].drop_last() == seq![0int]);
            assert(close_spec(evs, s3) == (Ok::<int, ParsingError>(3), s4));
            assert(href_spec(evs, s1) == (Ok::<Seq<char>, ParsingError>(h.0@), s4));
            assert(<Href as QRead>::qread_spec(evs, s1) == (Ok::<Seq<char>, ParsingError>(h.0@), s4));
            assert(find_loop::<Href>(evs, s1) == (Ok::<Seq<char>, ParsingError>(h.0@), s4));
            assert(find_spec::<Href>(evs, s1) == (Ok::<Seq<char>, ParsingError>(h.0@), s4));
            assert(seq![0int].drop_last() == Seq::<int>::empty());
            assert(close_spec(evs, s4) == next_spec(evs, pop_parent(s4)));
            assert(cal_value_spec(evs, s1, j).0 == Ok::<_, ParsingError>(v@));
        },
        CalProperty::CalendarDescription { lang, text } => {
            let a = ns + lang_attr(lang);
            assert(ws == text_element(q, a, text@));
            assert(cal_event_reads_as(evs[1], ws[1]));
            assert(cal_event_reads_as(evs[2], ws[2]));
            lemma_text_at(evs, s1, text@);
            let s2 = RState { pos: 2, prev: Some(1), parents: seq![0int] };
            assert(seq![0int].drop_last() == Seq::<int>::empty());
            assert(close_spec(evs, s2) == next_spec(evs, pop_parent(s2)));
            let t = match evs[0] {
                XmlEvent::Start(t) => t,
                _ => arbitrary(),
            };
            reveal_strlit("xmlns");
            reveal_strlit("xml:lang");
            lemma_attr_read(t.attrs@, a, "xml:lang"@);
            assert("xml:lang"@.take(5)[3] != "xmlns"@[3]);
            lemma_attr_after_declarations(ns, lang_attr(lang), "xml:lang"@);
            match lang {
                Some(l) => {
                    assert(written_attr(lang_attr(lang), "xml:lang"@) == Some(l@));
                    assert(prev_attr_spec(evs, s1, "xml:lang"@) == Some(l@));
                },
                None => {
                    assert(written_attr(lang_attr(lang), "xml:lang"@) == None::<Seq<char>>);
                    assert(prev_attr_spec(evs, s1, "xml:lang"@) == None::<Seq<char>>);
                },
            }
            assert(cal_value_spec(evs, s1, j).0 == Ok::<_, ParsingError>(v@));
        },
        CalProperty::CalendarTimezone(t) => {
            assert(cal_event_reads_as(evs[1], ws[1]));
            assert(cal_event_reads_as(evs[2], ws[2]));
            lemma_text_at(evs, s1, t@);
            let s2 = RState { pos: 2, prev: Some(1), parents: seq![0int] };
            assert(seq![0int].drop_last() == Seq::<int>::empty());
            assert(close_spec(evs, s2) == next_spec(evs, pop_parent(s2)));
            assert(cal_value_spec(evs, s1, j).0 == Ok::<_, ParsingError>(v@));
        },
        CalProperty::MaxResourceSize(c) | CalProperty::MaxInstances(c) | CalProperty::MaxAttendeesPerInstance(c) => {
            let d = decimal(c as nat);
            assert(cal_event_reads_as(evs[1], ws[1]));
            assert(cal_event_reads_as(evs[2], ws[2]));
            lemma_text_at(evs, s1, d);
            let s2 = RState { pos: 2, prev: Some(1), parents: seq![0int] };
            lemma_decimal_reads_back(c);
            assert(seq![0int].drop_last() == Seq::<int>::empty());
            assert(close_spec(evs, s2) == next_spec(evs, pop_parent(s2)));
            assert(cal_count_spec(evs, s1).0 == Ok::<u64, ParsingError>(c));
            assert(cal_value_spec(evs, s1, j).0 == Ok::<_, ParsingError>(v@));
        },
        _ => {},
    }
}


/// The value of the first written attribute named `key`.
pub open spec fn written_attr(a: Seq<(Seq<char>, Seq<char>)>, key: Seq<char>) -> Option<Seq<char>>
    decreases a.len(),
{
    if a.len() == 0 {
        None
    } else if a[0].0 == key {
        Some(a[0].1)
    } else {
        written_attr(a.drop_first(), key)
    }
}

/// Whether every attribute of `ns` declares a namespace prefix
/// (`xmlns...`), as the pending declarations of a writer do.
pub open spec fn declarations_only(ns: Seq<(Seq<char>, Seq<char>)>) -> bool {
    forall|i: int| 0 <= i < ns.len() ==> (#[trigger] ns[i]).0.len() >= 5 && ns[i].0.take(5) == "xmlns"@
}

/// An attribute read back has the written value.
proof fn lemma_attr_read(got: Seq<(String, Option<String>)>, written: Seq<(Seq<char>, Seq<char>)>, key: Seq<char>)
    requires
        attrs_read_as(got, written),
    ensures
        attr_of(got, key) == written_attr(written, key),
    decreases got.len(),
{
    if got.len() > 0 {
        assert(got[0].0@ == written[0].0);
        assert(attrs_read_as(got.drop_first(), written.drop_first())) by {
            assert forall|i: int| 0 <= i < got.len() - 1 implies (#[trigger] got.drop_first()[i]).0@ == written.drop_first()[i].0
                && (got.drop_first()[i].1 matches Some(v) && v@ == written.drop_first()[i].1) by {
                assert(got.drop_first()[i] == got[i + 1]);
            }
        }
        lemma_attr_read(got.drop_first(), written.drop_first(), key);
    }
}

/// Namespace declarations written before other attributes hide none of
/// them.
proof fn lemma_attr_after_declarations(ns: Seq<(Seq<char>, Seq<char>)>, extra: Seq<(Seq<char>, Seq<char>)>, key: Seq<char>)
    requires
        declarations_only(ns),
        !(key.len() >= 5 && key.take(5) == "xmlns"@),
    ensures
        written_attr(ns + extra, key) == written_attr(extra, key),
    decreases ns.len(),
{
    if ns.len() > 0 {
        assert((ns + extra)[0] == ns[0]);
        assert(ns[0].0 != key);
        assert((ns + extra).drop_first() =~= ns.drop_first() + extra);
        assert(declarations_only(ns.drop_first())) by {
            assert forall|i: int| 0 <= i < ns.drop_first().len() implies (#[trigger] ns.drop_first()[i]).0.len() >= 5
                && ns.drop_first()[i].0.take(5) == "xmlns"@ by {
                assert(ns.drop_first()[i] == ns[i + 1]);
            }
        }
        lemma_attr_after_declarations(ns.drop_first(), extra, key);
    } else {
        assert(ns + extra =~= extra);
    }
}

/// The name of a collation reads back as that collation, unless it is an
/// unknown one that bears a known name.
proof fn lemma_collation_reads_back(c: CollationView)
    requires
        !(c matches CollationView::Unknown(s) && (s == "i;ascii-casemap"@ || s == "i;octet"@)),
    ensures
        collation_view_of(collation_name(c)) == c,
{
    reveal_strlit("i;ascii-casemap");
    reveal_strlit("i;octet");
    assert("i;octet"@.len() != "i;ascii-casemap"@.len());
}

/// Reading a text match written at the current event, with the
/// namespace declarations `ns`: the text match, and the cursor after it.
#[verifier::rlimit(40)]
proof fn lemma_text_match_at(evs: Seq<XmlEvent>, st: RState, v: TextMatch, ns: Seq<(Seq<char>, Seq<char>)>)
    requires
        state_ok(evs, st),
        st.pos + 3 < evs.len(),
        forall|i: int| 0 <= i < 3 ==> cal_event_reads_as(#[trigger] evs[st.pos + i], v.qwrite_spec(ns)[i]),
        !(evs[st.pos + 3] is Fail),
        declarations_only(ns),
        !(v@.collation matches Some(CollationView::Unknown(s)) && (s == "i;ascii-casemap"@ || s == "i;octet"@)),
    ensures
        cal_text_match_spec(evs, st) == (
            Ok::<_, ParsingError>(v@),
            RState { pos: st.pos + 3, prev: Some(st.pos + 2), parents: st.parents },
        ),
{
    let p = st.pos;
    let a = ns + text_match_attrs(v);
    let ws = v.qwrite_spec(ns);
    let q = cal_q("text-match"@);
    assert(ws == text_element(q, a, v.text@));
    assert(cal_event_reads_as(evs[p + 0], ws[0]));
    assert(cal_event_reads_as(evs[p + 1], ws[1]));
    assert(cal_event_reads_as(evs[p + 2], ws[2]));
    assert(q.skip(2) =~= "text-match"@);
    assert(q[0] == 'C' && q[1] == ':');
    let s1 = RState { pos: p + 1, prev: Some(p), parents: st.parents.push(p) };
    assert(open_spec(evs, st, CAL_URN@, "text-match"@) == (Ok::<int, ParsingError>(p), s1));
    assert(parent_has_child_spec(evs, s1));
    lemma_text_at(evs, s1, v.text@);
    let s2 = RState { pos: p + 2, prev: Some(p + 1), parents: st.parents.push(p) };
    assert(st.parents.push(p).drop_last() =~= st.parents);
    assert(close_spec(evs, s2) == next_spec(evs, pop_parent(s2)));
    let t = match evs[p] {
        XmlEvent::Start(t) => t,
        _ => arbitrary(),
    };
    reveal_strlit("xmlns");
    reveal_strlit("collation");
    reveal_strlit("negate-condition");
    reveal_strlit("yes");
    reveal_strlit("no");
    lemma_attr_read(t.attrs@, a, "collation"@);
    lemma_attr_read(t.attrs@, a, "negate-condition"@);
    assert("collation"@[0] != "xmlns"@[0]);
    assert("negate-condition"@[0] != "xmlns"@[0]);
    lemma_attr_after_declarations(ns, text_match_attrs(v), "collation"@);
    lemma_attr_after_declarations(ns, text_match_attrs(v), "negate-condition"@);
    let ca = match v.collation {
        Some(c) => seq![("collation"@, collation_name(c@))],
        None => Seq::<(Seq<char>, Seq<char>)>::empty(),
    };
    let na = match v.negate_condition {
        Some(true) => seq![("negate-condition"@, "yes"@)],
        Some(false) => seq![("negate-condition"@, "no"@)],
        None => Seq::<(Seq<char>, Seq<char>)>::empty(),
    };
    assert(text_match_attrs(v) == ca + na);
    assert("collation"@.len() != "negate-condition"@.len());
    assert(written_attr(na, "collation"@) == None::<Seq<char>>) by {
        if na.len() > 0 {
            assert(na[0].0 == "negate-condition"@);
            assert(na[0].0 != "collation"@);
            assert(na.drop_first() =~= Seq::<(Seq<char>, Seq<char>)>::empty());
            assert(written_attr(na.drop_first(), "collation"@) == None::<Seq<char>>);
        }
    }
    assert(written_attr(ca + na, "collation"@) == written_attr(ca, "collation"@)) by {
        if ca.len() > 0 {
            assert((ca + na)[0] == ca[0]);
        } else {
            assert(ca + na =~= na);
        }
    }
    assert(written_attr(ca + na, "negate-condition"@) == written_attr(na, "negate-condition"@)) by {
        if ca.len() > 0 {
            assert((ca + na)[0] == ca[0]);
            assert((ca + na).drop_first() =~= na);
        } else {
            assert(ca + na =~= na);
        }
    }
    assert(prev_attr_spec(evs, s1, "collation"@) == written_attr(ca, "collation"@));
    match v.collation {
        Some(c) => lemma_collation_reads_back(c@),
        None => {},
    }
    assert("no"@.len() != "yes"@.len());
}

/// A written text match reads back as the same text match, but for an
/// unknown collation that bears the name of a known one.
pub proof fn law_cal_text_match_roundtrip(v: TextMatch, ns: Seq<(Seq<char>, Seq<char>)>, evs: Seq<XmlEvent>)
    requires
        cal_reads_back(evs, v.qwrite_spec(ns)),
        declarations_only(ns),
        !(v@.collation matches Some(CollationView::Unknown(s)) && (s == "i;ascii-casemap"@ || s == "i;octet"@)),
    ensures
        <TextMatch as QRead>::qread_spec(evs, start_state()).0 == Ok::<_, ParsingError>(v@),
{
    let ws = v.qwrite_spec(ns);
    assert(ws.len() == 3);
    assert forall|i: int| 0 <= i < 3 implies cal_event_reads_as(#[trigger] evs[start_state().pos + i], ws[i]) by {
        assert(evs[start_state().pos + i] == evs[i]);
    }
    lemma_text_match_at(evs, start_state(), v, ns);
}

/// Whether a text match, if there is one, bears an unknown collation with
/// the name of a known one.
pub open spec fn collation_misnamed(t: TextMatchView) -> bool {
    t.collation matches Some(CollationView::Unknown(s)) && (s == "i;ascii-casemap"@ || s == "i;octet"@)
}

/// Whether the rules of a parameter filter hold a text match whose
/// collation is misnamed.
pub open spec fn param_filter_misnamed(v: ParamFilterView) -> bool {
    v.rules matches Some(ParamFilterMatchView::Match(t)) && collation_misnamed(t)
}

/// Reading a parameter filter written at the current event, with the
/// namespace declarations `ns`: the filter, and the cursor after it.
#[verifier::rlimit(60)]
proof fn lemma_param_filter_at(evs: Seq<XmlEvent>, st: RState, v: ParamFilter, ns: Seq<(Seq<char>, Seq<char>)>)
    requires
        state_ok(evs, st),
        st.pos + v.qwrite_spec(ns).len() < evs.len(),
        forall|i: int| 0 <= i < v.qwrite_spec(ns).len() ==> cal_event_reads_as(#[trigger] evs[st.pos + i], v.qwrite_spec(ns)[i]),
        !(evs[st.pos + v.qwrite_spec(ns).len()] is Fail),
        declarations_only(ns),
        !param_filter_misnamed(v@),
    ensures
        cal_param_filter_spec(evs, st) == (
            Ok::<_, ParsingError>(v@),
            RState {
                pos: st.pos + v.qwrite_spec(ns).len(),
                prev: Some(st.pos + v.qwrite_spec(ns).len() - 1),
                parents: st.parents,
            },
        ),
{
    let p = st.pos;
    let a = ns + name_attr(v.name.0@);
    let q = cal_q("param-filter"@);
    let ws = v.qwrite_spec(ns);
    assert(q.skip(2) =~= "param-filter"@);
    assert(q[0] == 'C' && q[1] == ':');
    assert(cal_event_reads_as(evs[p + 0], ws[0]));
    let t = match evs[p] {
        XmlEvent::Start(t) => t,
        XmlEvent::Empty(t) => t,
        _ => arbitrary(),
    };
    reveal_strlit("xmlns");
    reveal_strlit("name");
    lemma_attr_read(t.attrs@, a, "name"@);
    assert("name"@[0] != "xmlns"@[0]);
    lemma_attr_after_declarations(ns, name_attr(v.name.0@), "name"@);
    assert(written_attr(name_attr(v.name.0@), "name"@) == Some(v.name.0@));
    let pp = st.parents.push(p);
    assert(pp.drop_last() =~= st.parents);
    match v.additional_rules {
        None => {
            assert(ws == cal_atom("param-filter"@, a));
            let s1 = RState { pos: p, prev: Some(p), parents: pp };
            assert(open_spec(evs, st, CAL_URN@, "param-filter"@) == (Ok::<int, ParsingError>(p), s1));
            assert(prev_attr_spec(evs, s1, "name"@) == Some(v.name.0@));
            assert(!parent_has_child_spec(evs, s1));
        },
        Some(r) => {
            let rw = r.qwrite_spec(Seq::empty());
            assert(ws == around(q, a, rw));
            let s1 = RState { pos: p + 1, prev: Some(p), parents: pp };
            assert(open_spec(evs, st, CAL_URN@, "param-filter"@) == (Ok::<int, ParsingError>(p), s1));
            assert(prev_attr_spec(evs, s1, "name"@) == Some(v.name.0@));
            assert(parent_has_child_spec(evs, s1));
            assert(declarations_only(Seq::empty()));
            let m: int = match r {
                ParamFilterMatch::IsNotDefined => 1,
                ParamFilterMatch::Match(_) => 3,
            };
            assert(rw.len() == m);
            assert(ws.len() == m + 2);
            assert forall|i: int| 0 <= i < m implies ws[1 + i] == rw[i] by {}
            let s2 = RState { pos: p + 1 + m, prev: Some(p + m), parents: pp };
            reveal_strlit("is-not-defined");
            reveal_strlit("text-match");
            match r {
                ParamFilterMatch::IsNotDefined => {
                    assert(cal_event_reads_as(evs[p + 1], ws[1]));
                    let qi = cal_q("is-not-defined"@);
                    assert(qi.skip(2) =~= "is-not-defined"@);
                    assert(qi[0] == 'C' && qi[1] == ':');
                    let ppp = pp.push(p + 1);
                    let si = RState { pos: p + 1, prev: Some(p + 1), parents: ppp };
                    assert(open_spec(evs, s1, CAL_URN@, "is-not-defined"@) == (Ok::<int, ParsingError>(p + 1), si));
                    assert(!parent_has_child_spec(evs, si));
                    assert(ppp.drop_last() =~= pp);
                    assert(cal_event_reads_as(evs[p + 2], ws[2]));
                    assert(close_spec(evs, si) == (Ok::<int, ParsingError>(p + 1), s2));
                    assert(atoms_spec(evs, s1, CAL_URN@, seq!["is-not-defined"@], 0) == (Ok::<int, ParsingError>(0), s2));
                    assert(cal_param_filter_match_spec(evs, s1) == (Ok::<_, ParsingError>(r@), s2));
                },
                ParamFilterMatch::Match(tm) => {
                    assert forall|i: int| 0 <= i < 3 implies cal_event_reads_as(
                        #[trigger] evs[s1.pos + i],
                        tm.qwrite_spec(Seq::empty())[i],
                    ) by {
                        assert(ws[1 + i] == rw[i]);
                        assert(cal_event_reads_as(evs[p + (1 + i)], ws[1 + i]));
                    }
                    assert(cal_event_reads_as(evs[p + 4], ws[4]));
                    lemma_text_match_at(evs, s1, tm, Seq::empty());
                    assert(cal_event_reads_as(evs[p + 1], ws[1]));
                    let qt = cal_q("text-match"@);
                    assert(qt.skip(2) =~= "text-match"@);
                    assert(qt[0] == 'C' && qt[1] == ':');
                    assert(ws[1] == WView::Start(qt, text_match_attrs(tm)));
                    assert(evs[p + 1] is Start);
                    assert("text-match"@.len() != "is-not-defined"@.len());
                    assert(!is_tag_spec(evs[p + 1], CAL_URN@, "is-not-defined"@));
                    let keys = seq!["is-not-defined"@];
                    assert(keys[0] == "is-not-defined"@);
                    assert(open_spec(evs, s1, CAL_URN@, keys[0]) == (Err::<int, ParsingError>(ParsingError::Recoverable), s1));
                    assert(atoms_spec(evs, s1, CAL_URN@, keys, 1) == (Err::<int, ParsingError>(ParsingError::Recoverable), s1));
                    assert(atoms_spec(evs, s1, CAL_URN@, keys, 0) == (Err::<int, ParsingError>(ParsingError::Recoverable), s1));
                    assert(cal_param_filter_match_spec(evs, s1) == (Ok::<_, ParsingError>(r@), s2));
                },
            }
            assert(maybe_find_loop::<ParamFilterMatch>(evs, s1) == (Ok::<_, ParsingError>(Some(r@)), s2));
            assert(cal_event_reads_as(evs[p + (1 + m)], ws[1 + m]));
            assert(close_spec(evs, s2) == next_spec(evs, pop_parent(s2)));
        },
    }
}

/// A written parameter filter reads back as the same filter, but for a
/// text match with an unknown collation that bears the name of a known
/// one.
pub proof fn law_cal_param_filter_roundtrip(v: ParamFilter, ns: Seq<(Seq<char>, Seq<char>)>, evs: Seq<XmlEvent>)
    requires
        cal_reads_back(evs, v.qwrite_spec(ns)),
        declarations_only(ns),
        !param_filter_misnamed(v@),
    ensures
        <ParamFilter as QRead>::qread_spec(evs, start_state()).0 == Ok::<_, ParsingError>(v@),
{
    let ws = v.qwrite_spec(ns);
    assert forall|i: int| 0 <= i < ws.len() implies cal_event_reads_as(#[trigger] evs[start_state().pos + i], ws[i]) by {
        assert(evs[start_state().pos + i] == evs[i]);
    }
    lemma_param_filter_at(evs, start_state(), v, ns);
}

/// Whether a name is the name of a known component type.
pub open spec fn known_component_name(s: Seq<char>) -> bool {
    ||| s == "VCALENDAR"@
    ||| s == "VJOURNAL"@
    ||| s == "VFREEBUSY"@
    ||| s == "VEVENT"@
    ||| s == "VTODO"@
    ||| s == "VALARM"@
    ||| s == "VTIMEZONE"@
}

/// The name of a component type reads back as that type, unless it is an
/// unknown one that bears a known name.
proof fn lemma_component_reads_back(c: Component)
    requires
        !(c matches Component::Unknown(s) && known_component_name(s@)),
    ensures
        component_view_of(component_name(c)) == c@,
{
    reveal_strlit("VCALENDAR");
    reveal_strlit("VJOURNAL");
    reveal_strlit("VFREEBUSY");
    reveal_strlit("VEVENT");
    reveal_strlit("VTODO");
    reveal_strlit("VALARM");
    reveal_strlit("VTIMEZONE");
    assert("VCALENDAR"@[1] != "VFREEBUSY"@[1] && "VCALENDAR"@[1] != "VTIMEZONE"@[1] && "VFREEBUSY"@[1] != "VTIMEZONE"@[1]);
    assert("VEVENT"@[1] != "VALARM"@[1]);
    assert("VJOURNAL"@.len() == 8 && "VTODO"@.len() == 5 && "VEVENT"@.len() == 6 && "VCALENDAR"@.len() == 9);
}

/// The events a list of supported component types writes, one by one.
proof fn lemma_comps_written(cs: Seq<CompSupport>)
    ensures
        written_all(cs).len() == cs.len(),
        forall|k: int|
            0 <= k < cs.len() ==> #[trigger] written_all(cs)[k] == WView::Empty(
                cal_q("comp"@),
                seq![("name"@, component_name(cs[k].0))],
            ),
    decreases cs.len(),
{
    if cs.len() > 0 {
        lemma_comps_written(cs.drop_last());
        let a = Seq::<(Seq<char>, Seq<char>)>::empty() + seq![("name"@, component_name(cs.last().0))];
        assert(a =~= seq![("name"@, component_name(cs.last().0))]);
        assert(cs.last().qwrite_spec(Seq::empty()) == cal_atom("comp"@, a));
    }
}

/// Reading a supported component type written as `<C:comp name=".."/>`:
/// the type, and the cursor after the element.
proof fn lemma_comp_support_at(evs: Seq<XmlEvent>, st: RState, c: CompSupport)
    requires
        state_ok(evs, st),
        cal_event_reads_as(evs[st.pos], WView::Empty(cal_q("comp"@), seq![("name"@, component_name(c.0))])),
        !(evs[st.pos + 1] is Fail),
        !(c.0 matches Component::Unknown(s) && known_component_name(s@)),
    ensures
        <CompSupport as QRead>::qread_spec(evs, st) == (
            Ok::<ComponentView, ParsingError>(c@),
            RState { pos: st.pos + 1, prev: Some(st.pos), parents: st.parents },
        ),
{
    let q = cal_q("comp"@);
    assert(q.skip(2) =~= "comp"@);
    assert(q[0] == 'C' && q[1] == ':');
    let a = seq![("name"@, component_name(c.0))];
    let s1 = RState { pos: st.pos, prev: Some(st.pos), parents: st.parents.push(st.pos) };
    assert(open_spec(evs, st, CAL_URN@, "comp"@) == (Ok::<int, ParsingError>(st.pos), s1));
    let t = match evs[st.pos] {
        XmlEvent::Empty(t) => t,
        _ => arbitrary(),
    };
    lemma_attr_read(t.attrs@, a, "name"@);
    assert(written_attr(a, "name"@) == Some(component_name(c.0)));
    assert(prev_attr_spec(evs, s1, "name"@) == Some(component_name(c.0)));
    assert(!parent_has_child_spec(evs, s1));
    assert(st.parents.push(st.pos).drop_last() =~= st.parents);
    lemma_component_reads_back(c.0);
}

/// The cursor after `k` children of the element opened first.
pub open spec fn after_children(k: int) -> RState {
    RState { pos: k + 1, prev: Some(k), parents: seq![0int] }
}

/// Reading the supported component types from the `k`-th on gives what
/// reading them all gives.
proof fn lemma_comps_loop(evs: Seq<XmlEvent>, ws: Seq<WView>, cs: Seq<CompSupport>, k: int)
    requires
        cal_reads_back(evs, ws),
        ws.len() == cs.len() + 2,
        ws[cs.len() as int + 1] matches WView::End(q) && q.len() >= 2 && q[0] == 'C' && q[1] == ':' && q.skip(2) != "comp"@,
        forall|i: int| 0 <= i < cs.len() ==> #[trigger] ws[i + 1] == written_all(cs)[i],
        written_all(cs).len() == cs.len(),
        forall|i: int|
            0 <= i < cs.len() ==> #[trigger] written_all(cs)[i] == WView::Empty(
                cal_q("comp"@),
                seq![("name"@, component_name(cs[i].0))],
            ),
        forall|i: int| 0 <= i < cs.len() ==> !((#[trigger] cs[i]).0 matches Component::Unknown(s) && known_component_name(s@)),
        evs[0] is Start,
        0 <= k <= cs.len(),
    ensures
        collect_loop::<CompSupport>(evs, after_children(k), views(cs.take(k))) == (
            Ok::<Seq<ComponentView>, ParsingError>(views(cs)),
            after_children(cs.len() as int),
        ),
    decreases cs.len() - k,
{
    let st = after_children(k);
    assert(parent_has_child_spec(evs, st));
    assert(cal_event_reads_as(evs[k + 1], ws[k + 1]));
    if k < cs.len() {
        assert(ws[k + 1] == written_all(cs)[k]);
        assert(cal_event_reads_as(evs[k + 2], ws[k + 2]));
        lemma_comp_support_at(evs, st, cs[k]);
        assert(views(cs.take(k)).push(cs[k]@) =~= views(cs.take(k + 1)));
        lemma_comps_loop(evs, ws, cs, k + 1);
    } else {
        assert(cs.take(k) =~= cs);
        assert(evs[k + 1] is End);
        assert(!is_tag_spec(evs[k + 1], CAL_URN@, "comp"@));
        assert(comp_support_spec(evs, st).0 == Err::<ComponentView, ParsingError>(ParsingError::Recoverable));
    }
}

/// A written set of supported component types reads back as the same
/// types, in order, but for unknown types that bear a known name.
#[verifier::spinoff_prover]
#[verifier::rlimit(40)]
pub proof fn law_cal_component_set_roundtrip(v: CalProperty, ns: Seq<(Seq<char>, Seq<char>)>, evs: Seq<XmlEvent>)
    requires
        cal_reads_back(evs, v.qwrite_spec(ns)),
        v matches CalProperty::SupportedCalendarComponentSet(cs) && forall|i: int|
            0 <= i < cs@.len() ==> !((#[trigger] cs@[i]).0 matches Component::Unknown(s) && known_component_name(s@)),
    ensures
        <CalProperty as QRead>::qread_spec(evs, start_state()).0 == Ok::<_, ParsingError>(v@),
{
    let cs = match v {
        CalProperty::SupportedCalendarComponentSet(cs) => cs@,
        _ => arbitrary(),
    };
    let ws = v.qwrite_spec(ns);
    reveal_strlit("calendar-home-set");
    reveal_strlit("calendar-description");
    reveal_strlit("calendar-timezone");
    reveal_strlit("supported-calendar-component-set");
    let n = cal_value_names();
    let j: int = 3;
    let q = cal_q(n[j]);
    assert(q.skip(2) =~= n[j]);
    assert(ws == around(q, ns, written_all(cs)));
    lemma_comps_written(cs);
    assert(ws.len() == cs.len() + 2);
    reveal_strlit("comp");
    assert(q.skip(2).len() != "comp"@.len());
    assert(cal_event_reads_as(evs[0], ws[0]));
    assert(q[0] == 'C' && q[1] == ':');
    assert forall|k: int| 0 <= k < j implies !is_tag_spec(evs[0], CAL_URN@, #[trigger] n[k]) by {
        lemma_names_differ(n, k, j);
    }
    let st = start_state();
    assert(Seq::<int>::empty().push(0) == seq![0int]);
    assert(cal_event_reads_as(evs[1], ws[1]));
    lemma_open_first_find(evs, st, CAL_URN@, n, 0, j);
    assert(open_first_spec(evs, st, CAL_URN@, n, 0) == (Ok::<int, ParsingError>(j), after_children(0)));
    assert forall|i: int| 0 <= i < cs.len() implies #[trigger] ws[i + 1] == written_all(cs)[i] by {}
    assert(cs.take(0) =~= Seq::<CompSupport>::empty());
    assert(views(Seq::<CompSupport>::empty()) =~= Seq::<ComponentView>::empty());
    lemma_comps_loop(evs, ws, cs, 0);
    let m = cs.len() as int;
    assert(parent_has_child_spec(evs, after_children(0)));
    assert(collect_spec::<CompSupport>(evs, after_children(0)) == (
        Ok::<Seq<ComponentView>, ParsingError>(views(cs)),
        after_children(m),
    ));
    assert(cal_event_reads_as(evs[m + 1], ws[m + 1]));
    assert(seq![0int].drop_last() == Seq::<int>::empty());
    assert(close_spec(evs, after_children(m)) == next_spec(evs, pop_parent(after_children(m))));
    assert(cal_value_spec(evs, after_children(0), j).0 == Ok::<_, ParsingError>(v@));
}


/// The events a list of calendar data types writes, one by one.
proof fn lemma_mimes_written(ms: Seq<CalendarDataEmpty>)
    ensures
        written_all(ms).len() == ms.len(),
        forall|k: int|
            0 <= k < ms.len() ==> #[trigger] written_all(ms)[k] == WView::Empty(cal_q("calendar-data"@), mime_attr(ms[k].0)),
    decreases ms.len(),
{
    if ms.len() > 0 {
        lemma_mimes_written(ms.drop_last());
        let a = Seq::<(Seq<char>, Seq<char>)>::empty() + mime_attr(ms.last().0);
        assert(a =~= mime_attr(ms.last().0));
        assert(ms.last().qwrite_spec(Seq::empty()) == cal_atom("calendar-data"@, a));
    }
}

/// Reading a calendar data type written as `<C:calendar-data .. />`: the
/// media type and version, and the cursor after the element.
proof fn lemma_mime_at(evs: Seq<XmlEvent>, st: RState, m: CalendarDataEmpty)
    requires
        state_ok(evs, st),
        cal_event_reads_as(evs[st.pos], WView::Empty(cal_q("calendar-data"@), mime_attr(m.0))),
        !(evs[st.pos + 1] is Fail),
    ensures
        <CalendarDataEmpty as QRead>::qread_spec(evs, st) == (
            Ok::<Option<(Seq<char>, Seq<char>)>, ParsingError>(m@),
            RState { pos: st.pos + 1, prev: Some(st.pos), parents: st.parents },
        ),
{
    let q = cal_q("calendar-data"@);
    assert(q.skip(2) =~= "calendar-data"@);
    assert(q[0] == 'C' && q[1] == ':');
    let a = mime_attr(m.0);
    let s1 = RState { pos: st.pos, prev: Some(st.pos), parents: st.parents.push(st.pos) };
    assert(open_spec(evs, st, CAL_URN@, "calendar-data"@) == (Ok::<int, ParsingError>(st.pos), s1));
    let t = match evs[st.pos] {
        XmlEvent::Empty(t) => t,
        _ => arbitrary(),
    };
    lemma_attr_read(t.attrs@, a, "content-type"@);
    lemma_attr_read(t.attrs@, a, "version"@);
    reveal_strlit("content-type");
    reveal_strlit("version");
    assert("content-type"@.len() != "version"@.len());
    match m.0 {
        Some(d) => {
            assert(a[1].0 == "version"@ && a[0].0 != "version"@);
            assert(a.drop_first().drop_first() =~= Seq::<(Seq<char>, Seq<char>)>::empty());
            assert(written_attr(a.drop_first(), "version"@) == Some(d.version@));
            assert(mime_attrs(evs, s1) == Some((d.content_type@, d.version@)));
        },
        None => {
            assert(mime_attrs(evs, s1) == None::<(Seq<char>, Seq<char>)>);
        },
    }
    assert(!parent_has_child_spec(evs, s1));
    assert(st.parents.push(st.pos).drop_last() =~= st.parents);
}

/// Reading the calendar data types from the `k`-th on gives what reading
/// them all gives.
proof fn lemma_mimes_loop(evs: Seq<XmlEvent>, ws: Seq<WView>, ms: Seq<CalendarDataEmpty>, k: int)
    requires
        cal_reads_back(evs, ws),
        ws.len() == ms.len() + 2,
        ws[ms.len() as int + 1] matches WView::End(q) && q.len() >= 2 && q[0] == 'C' && q[1] == ':' && q.skip(2)
            != "calendar-data"@,
        forall|i: int| 0 <= i < ms.len() ==> #[trigger] ws[i + 1] == written_all(ms)[i],
        written_all(ms).len() == ms.len(),
        forall|i: int|
            0 <= i < ms.len() ==> #[trigger] written_all(ms)[i] == WView::Empty(cal_q("calendar-data"@), mime_attr(ms[i].0)),
        evs[0] is Start,
        0 <= k <= ms.len(),
    ensures
        collect_loop::<CalendarDataEmpty>(evs, after_children(k), views(ms.take(k))) == (
            Ok::<Seq<Option<(Seq<char>, Seq<char>)>>, ParsingError>(views(ms)),
            after_children(ms.len() as int),
        ),
    decreases ms.len() - k,
{
    let st = after_children(k);
    assert(parent_has_child_spec(evs, st));
    assert(cal_event_reads_as(evs[k + 1], ws[k + 1]));
    if k < ms.len() {
        assert(ws[k + 1] == written_all(ms)[k]);
        assert(cal_event_reads_as(evs[k + 2], ws[k + 2]));
        lemma_mime_at(evs, st, ms[k]);
        assert(views(ms.take(k)).push(ms[k]@) =~= views(ms.take(k + 1)));
        lemma_mimes_loop(evs, ws, ms, k + 1);
    } else {
        assert(ms.take(k) =~= ms);
        assert(evs[k + 1] is End);
        assert(!is_tag_spec(evs[k + 1], CAL_URN@, "calendar-data"@));
        assert(calendar_data_empty_spec(evs, st).0 == Err::<Option<(Seq<char>, Seq<char>)>, ParsingError>(
            ParsingError::Recoverable,
        ));
    }
}

/// A written set of supported calendar data types reads back as the same
/// media types and versions, in order.
#[verifier::spinoff_prover]
#[verifier::rlimit(40)]
pub proof fn law_cal_data_set_roundtrip(v: CalProperty, ns: Seq<(Seq<char>, Seq<char>)>, evs: Seq<XmlEvent>)
    requires
        cal_reads_back(evs, v.qwrite_spec(ns)),
        v is SupportedCalendarData,
    ensures
        <CalProperty as QRead>::qread_spec(evs, start_state()).0 == Ok::<_, ParsingError>(v@),
{
    let ms = match v {
        CalProperty::SupportedCalendarData(ms) => ms@,
        _ => arbitrary(),
    };
    let ws = v.qwrite_spec(ns);
    reveal_strlit("calendar-home-set");
    reveal_strlit("calendar-description");
    reveal_strlit("calendar-timezone");
    reveal_strlit("supported-calendar-component-set");
    reveal_strlit("supported-calendar-data");
    let n = cal_value_names();
    let j: int = 4;
    let q = cal_q(n[j]);
    assert(q.skip(2) =~= n[j]);
    assert(ws == around(q, ns, written_all(ms)));
    lemma_mimes_written(ms);
    assert(ws.len() == ms.len() + 2);
    reveal_strlit("calendar-data");
    assert(q.skip(2).len() != "calendar-data"@.len());
    assert(cal_event_reads_as(evs[0], ws[0]));
    assert(q[0] == 'C' && q[1] == ':');
    assert forall|k: int| 0 <= k < j implies !is_tag_spec(evs[0], CAL_URN@, #[trigger] n[k]) by {
        lemma_names_differ(n, k, j);
    }
    let st = start_state();
    assert(Seq::<int>::empty().push(0) == seq![0int]);
    assert(cal_event_reads_as(evs[1], ws[1]));
    lemma_open_first_find(evs, st, CAL_URN@, n, 0, j);
    assert(open_first_spec(evs, st, CAL_URN@, n, 0) == (Ok::<int, ParsingError>(j), after_children(0)));
    assert forall|i: int| 0 <= i < ms.len() implies #[trigger] ws[i + 1] == written_all(ms)[i] by {}
    assert(ms.take(0) =~= Seq::<CalendarDataEmpty>::empty());
    assert(views(Seq::<CalendarDataEmpty>::empty()) =~= Seq::<Option<(Seq<char>, Seq<char>)>>::empty());
    lemma_mimes_loop(evs, ws, ms, 0);
    let m = ms.len() as int;
    assert(parent_has_child_spec(evs, after_children(0)));
    assert(collect_spec::<CalendarDataEmpty>(evs, after_children(0)) == (
        Ok::<Seq<Option<(Seq<char>, Seq<char>)>>, ParsingError>(views(ms)),
        after_children(m),
    ));
    assert(cal_event_reads_as(evs[m + 1], ws[m + 1]));
    assert(seq![0int].drop_last() == Seq::<int>::empty());
    assert(close_spec(evs, after_children(m)) == next_spec(evs, pop_parent(after_children(m))));
    assert(cal_value_spec(evs, after_children(0), j).0 == Ok::<_, ParsingError>(v@));
}


/// The events a list of supported collations writes: three for each.
proof fn lemma_collations_written(cs: Seq<SupportedCollation>)
    ensures
        written_all(cs).len() == 3 * cs.len(),
        forall|k: int|
            0 <= k < cs.len() ==> #[trigger] written_all(cs)[3 * k] == WView::Start(cal_q("supported-collation"@), Seq::empty())
                && written_all(cs)[3 * k + 1] == WView::Text(collation_name(cs[k].0@))
                && written_all(cs)[3 * k + 2] == WView::End(cal_q("supported-collation"@)),
    decreases cs.len(),
{
    if cs.len() > 0 {
        let init = cs.drop_last();
        lemma_collations_written(init);
        let last = cs.last().qwrite_spec(Seq::empty());
        assert(written_all(cs) == written_all(init) + last);
        assert forall|k: int| 0 <= k < cs.len() implies #[trigger] written_all(cs)[3 * k] == WView::Start(
            cal_q("supported-collation"@),
            Seq::empty(),
        ) && written_all(cs)[3 * k + 1] == WView::Text(collation_name(cs[k].0@)) && written_all(cs)[3 * k + 2]
            == WView::End(cal_q("supported-collation"@)) by {
            if k < init.len() {
                assert(init[k] == cs[k]);
            }
        }
    }
}

/// The cursor after `k` elements of three events each, inside the element
/// opened first.
pub open spec fn after_triples(k: int) -> RState {
    RState { pos: 3 * k + 1, prev: Some(3 * k), parents: seq![0int] }
}

/// Reading the supported collations from the `k`-th on gives what reading
/// them all gives.
#[verifier::rlimit(40)]
proof fn lemma_collations_loop(evs: Seq<XmlEvent>, ws: Seq<WView>, cs: Seq<SupportedCollation>, k: int)
    requires
        cal_reads_back(evs, ws),
        ws.len() == 3 * cs.len() + 2,
        ws[3 * cs.len() as int + 1] matches WView::End(q) && q.len() >= 2 && q[0] == 'C' && q[1] == ':' && q.skip(2)
            != "supported-collation"@,
        forall|i: int| 0 <= i < 3 * cs.len() ==> #[trigger] ws[i + 1] == written_all(cs)[i],
        written_all(cs).len() == 3 * cs.len(),
        forall|i: int|
            0 <= i < cs.len() ==> #[trigger] written_all(cs)[3 * i] == WView::Start(cal_q("supported-collation"@), Seq::empty())
                && written_all(cs)[3 * i + 1] == WView::Text(collation_name(cs[i].0@))
                && written_all(cs)[3 * i + 2] == WView::End(cal_q("supported-collation"@)),
        forall|i: int| 0 <= i < cs.len() ==> !((#[trigger] cs[i]).0@ matches CollationView::Unknown(s) && (s == "i;ascii-casemap"@ || s == "i;octet"@)),
        evs[0] is Start,
        0 <= k <= cs.len(),
    ensures
        collect_loop::<SupportedCollation>(evs, after_triples(k), views(cs.take(k))) == (
            Ok::<Seq<CollationView>, ParsingError>(views(cs)),
            after_triples(cs.len() as int),
        ),
    decreases cs.len() - k,
{
    let st = after_triples(k);
    let p = 3 * k + 1;
    assert(parent_has_child_spec(evs, st));
    assert(cal_event_reads_as(evs[p], ws[p]));
    if k < cs.len() {
        let q = cal_q("supported-collation"@);
        assert(q.skip(2) =~= "supported-collation"@);
        assert(q[0] == 'C' && q[1] == ':');
        assert(ws[p] == written_all(cs)[3 * k]);
        assert(ws[p + 1] == written_all(cs)[3 * k + 1]);
        assert(ws[p + 2] == written_all(cs)[3 * k + 2]);
        assert(cal_event_reads_as(evs[p + 1], ws[p + 1]));
        assert(cal_event_reads_as(evs[p + 2], ws[p + 2]));
        assert(cal_event_reads_as(evs[p + 3], ws[p + 3]));
        let s1 = RState { pos: p + 1, prev: Some(p), parents: seq![0int, p] };
        assert(seq![0int].push(p) == seq![0int, p]);
        assert(open_spec(evs, st, CAL_URN@, "supported-collation"@) == (Ok::<int, ParsingError>(p), s1));
        assert(parent_has_child_spec(evs, s1));
        lemma_text_at(evs, s1, collation_name(cs[k].0@));
        let s2 = RState { pos: p + 2, prev: Some(p + 1), parents: seq![0int, p] };
        assert(seq![0int, p].drop_last() == seq![0int]);
        assert(close_spec(evs, s2) == (Ok::<int, ParsingError>(p + 2), after_triples(k + 1)));
        lemma_collation_reads_back(cs[k].0@);
        assert(cal_supported_collation_spec(evs, st) == (Ok::<CollationView, ParsingError>(cs[k]@), after_triples(k + 1)));
        assert(views(cs.take(k)).push(cs[k]@) =~= views(cs.take(k + 1)));
        lemma_collations_loop(evs, ws, cs, k + 1);
    } else {
        assert(cs.take(k) =~= cs);
        assert(evs[p] is End);
        assert(!is_tag_spec(evs[p], CAL_URN@, "supported-collation"@));
        assert(cal_supported_collation_spec(evs, st).0 == Err::<CollationView, ParsingError>(ParsingError::Recoverable));
    }
}

/// A written set of supported collations reads back as the same
/// collations, in order, but for unknown ones that bear a known name.
#[verifier::spinoff_prover]
#[verifier::rlimit(40)]
pub proof fn law_cal_collation_set_roundtrip(v: CalProperty, ns: Seq<(Seq<char>, Seq<char>)>, evs: Seq<XmlEvent>)
    requires
        cal_reads_back(evs, v.qwrite_spec(ns)),
        v matches CalProperty::SupportedCollationSet(cs) && forall|i: int|
            0 <= i < cs@.len() ==> !((#[trigger] cs@[i]).0@ matches CollationView::Unknown(s) && (s == "i;ascii-casemap"@ || s
                == "i;octet"@)),
    ensures
        <CalProperty as QRead>::qread_spec(evs, start_state()).0 == Ok::<_, ParsingError>(v@),
{
    let cs = match v {
        CalProperty::SupportedCollationSet(cs) => cs@,
        _ => arbitrary(),
    };
    let ws = v.qwrite_spec(ns);
    reveal_strlit("calendar-home-set");
    reveal_strlit("calendar-description");
    reveal_strlit("calendar-timezone");
    reveal_strlit("supported-calendar-component-set");
    reveal_strlit("supported-calendar-data");
    reveal_strlit("max-resource-size");
    reveal_strlit("max-date-time");
    reveal_strlit("max-instances");
    reveal_strlit("max-attendees-per-instance");
    reveal_strlit("supported-collation-set");
    let n = cal_value_names();
    let j: int = 9;
    let q = cal_q(n[j]);
    assert(q.skip(2) =~= n[j]);
    assert(ws == around(q, ns, written_all(cs)));
    lemma_collations_written(cs);
    assert(ws.len() == 3 * cs.len() + 2);
    reveal_strlit("supported-collation");
    assert(q.skip(2).len() != "supported-collation"@.len());
    assert(cal_event_reads_as(evs[0], ws[0]));
    assert(q[0] == 'C' && q[1] == ':');
    assert forall|k: int| 0 <= k < j implies !is_tag_spec(evs[0], CAL_URN@, #[trigger] n[k]) by {
        lemma_names_differ(n, k, j);
    }
    let st = start_state();
    assert(Seq::<int>::empty().push(0) == seq![0int]);
    assert(cal_event_reads_as(evs[1], ws[1]));
    lemma_open_first_find(evs, st, CAL_URN@, n, 0, j);
    assert(open_first_spec(evs, st, CAL_URN@, n, 0) == (Ok::<int, ParsingError>(j), after_triples(0)));
    assert forall|i: int| 0 <= i < 3 * cs.len() implies #[trigger] ws[i + 1] == written_all(cs)[i] by {}
    assert(cs.take(0) =~= Seq::<SupportedCollation>::empty());
    assert(views(Seq::<SupportedCollation>::empty()) =~= Seq::<CollationView>::empty());
    lemma_collations_loop(evs, ws, cs, 0);
    let m = cs.len() as int;
    assert(parent_has_child_spec(evs, after_triples(0)));
    assert(collect_spec::<SupportedCollation>(evs, after_triples(0)) == (
        Ok::<Seq<CollationView>, ParsingError>(views(cs)),
        after_triples(m),
    ));
    assert(cal_event_reads_as(evs[3 * m + 1], ws[3 * m + 1]));
    assert(seq![0int].drop_last() == Seq::<int>::empty());
    assert(close_spec(evs, after_triples(m)) == next_spec(evs, pop_parent(after_triples(m))));
    assert(cal_value_spec(evs, after_triples(0), j).0 == Ok::<_, ParsingError>(v@));
}


/// Opening the first of the elements `ns:keys[i..]` where the current
/// event is none of them: `Recoverable`, and nothing moved.
proof fn lemma_open_first_miss(evs: Seq<XmlEvent>, st: RState, ns: Seq<char>, keys: Seq<Seq<char>>, i: int)
    requires
        0 <= i <= keys.len(),
        forall|k: int| i <= k < keys.len() ==> !is_tag_spec(evs[st.pos], ns, #[trigger] keys[k]),
    ensures
        open_first_spec(evs, st, ns, keys, i) == (Err::<int, ParsingError>(ParsingError::Recoverable), st),
    decreases keys.len() - i,
{
    if i < keys.len() {
        assert(!is_tag_spec(evs[st.pos], ns, keys[i]));
        lemma_open_first_miss(evs, st, ns, keys, i + 1);
    }
}

/// Written calendar data reads back as the same media type, version and
/// payload.
#[verifier::spinoff_prover]
#[verifier::rlimit(40)]
pub proof fn law_cal_data_payload_roundtrip(v: CalProperty, ns: Seq<(Seq<char>, Seq<char>)>, evs: Seq<XmlEvent>)
    requires
        cal_reads_back(evs, v.qwrite_spec(ns)),
        declarations_only(ns),
        v is CalendarData,
    ensures
        <CalProperty as QRead>::qread_spec(evs, start_state()).0 == Ok::<_, ParsingError>(v@),
{
    let d = match v {
        CalProperty::CalendarData(d) => d,
        _ => arbitrary(),
    };
    let a = ns + mime_attr(d.mime);
    let q = cal_q("calendar-data"@);
    let ws = v.qwrite_spec(ns);
    assert(ws == text_element(q, a, d.payload@));
    assert(cal_event_reads_as(evs[0], ws[0]));
    assert(cal_event_reads_as(evs[1], ws[1]));
    assert(cal_event_reads_as(evs[2], ws[2]));
    assert(q.skip(2) =~= "calendar-data"@);
    assert(q[0] == 'C' && q[1] == ':');
    reveal_strlit("calendar-data");
    reveal_strlit("calendar-home-set");
    reveal_strlit("calendar-description");
    reveal_strlit("calendar-timezone");
    reveal_strlit("supported-calendar-component-set");
    reveal_strlit("supported-calendar-data");
    reveal_strlit("max-resource-size");
    reveal_strlit("max-date-time");
    reveal_strlit("max-instances");
    reveal_strlit("max-attendees-per-instance");
    reveal_strlit("supported-collation-set");
    let n = cal_value_names();
    let st = start_state();
    assert forall|k: int| 0 <= k < n.len() implies !is_tag_spec(evs[0], CAL_URN@, #[trigger] n[k]) by {
        assert(n[k].len() != "calendar-data"@.len() || n[k][0] != "calendar-data"@[0]);
    }
    lemma_open_first_miss(evs, st, CAL_URN@, n, 0);
    let s1 = RState { pos: 1, prev: Some(0), parents: seq![0int] };
    assert(Seq::<int>::empty().push(0) == seq![0int]);
    assert(open_spec(evs, st, CAL_URN@, "calendar-data"@) == (Ok::<int, ParsingError>(0), s1));
    assert(parent_has_child_spec(evs, s1));
    lemma_text_at(evs, s1, d.payload@);
    let s2 = RState { pos: 2, prev: Some(1), parents: seq![0int] };
    assert(seq![0int].drop_last() == Seq::<int>::empty());
    assert(close_spec(evs, s2) == next_spec(evs, pop_parent(s2)));
    let t = match evs[0] {
        XmlEvent::Start(t) => t,
        _ => arbitrary(),
    };
    reveal_strlit("xmlns");
    reveal_strlit("content-type");
    reveal_strlit("version");
    lemma_attr_read(t.attrs@, a, "content-type"@);
    lemma_attr_read(t.attrs@, a, "version"@);
    assert("content-type"@[0] != "xmlns"@[0]);
    assert("version"@[0] != "xmlns"@[0]);
    lemma_attr_after_declarations(ns, mime_attr(d.mime), "content-type"@);
    lemma_attr_after_declarations(ns, mime_attr(d.mime), "version"@);
    let m = mime_attr(d.mime);
    assert("content-type"@.len() != "version"@.len());
    match d.mime {
        Some(x) => {
            assert(m[1].0 == "version"@ && m[0].0 != "version"@);
            assert(m.drop_first().drop_first() =~= Seq::<(Seq<char>, Seq<char>)>::empty());
            assert(written_attr(m.drop_first(), "version"@) == Some(x.version@));
            assert(mime_attrs(evs, s1) == Some((x.content_type@, x.version@)));
        },
        None => {
            assert(mime_attrs(evs, s1) == None::<(Seq<char>, Seq<char>)>);
        },
    }
    assert(calendar_data_payload_spec(evs, st).0 == Ok::<_, ParsingError>(d@));
}


/// The events of the first `j` values of a list begin the events of the
/// whole list.
proof fn lemma_written_all_prefix<T: QWrite>(s: Seq<T>, j: int)
    requires
        0 <= j <= s.len(),
    ensures
        written_all(s.take(j)).len() <= written_all(s).len(),
        forall|i: int| 0 <= i < written_all(s.take(j)).len() ==> #[trigger] written_all(s)[i] == written_all(s.take(j))[i],
    decreases s.len() - j,
{
    if j < s.len() {
        lemma_written_all_prefix(s, j + 1);
        assert(s.take(j + 1).drop_last() =~= s.take(j));
        assert(written_all(s.take(j + 1)) == written_all(s.take(j)) + s.take(j + 1).last().qwrite_spec(Seq::empty()));
    } else {
        assert(s.take(j) =~= s);
    }
}

/// `cal_reads_back` for events written from position `o` on.
pub open spec fn cal_reads_back_at(evs: Seq<XmlEvent>, o: int, ws: Seq<WView>) -> bool {
    &&& doc_ok(evs)
    &&& 0 <= o
    &&& o + ws.len() < evs.len()
    &&& forall|i: int| 0 <= i < ws.len() ==> cal_event_reads_as(#[trigger] evs[o + i], ws[i])
    &&& !(evs[o + ws.len()] is Fail)
}

/// Whether the open elements are positions of the events.
pub open spec fn parents_ok(evs: Seq<XmlEvent>, ps: Seq<int>) -> bool {
    forall|i: int| 0 <= i < ps.len() ==> 0 <= #[trigger] ps[i] < evs.len()
}

/// The cursor at event `p`, after event `p - 1`, with the open elements
/// `ps`.
pub open spec fn at_in(p: int, ps: Seq<int>) -> RState {
    RState { pos: p, prev: Some(p - 1), parents: ps }
}

/// Where the events of the first `k` values of a list end, from `base`.
pub open spec fn after_written<T: QWrite>(base: int, s: Seq<T>, k: int) -> int {
    base + written_all(s.take(k)).len()
}

/// What the law on property filters leaves out: rules that match nothing,
/// a time range, and a text match whose collation is misnamed.
pub open spec fn prop_filter_law_ok(v: PropFilter) -> bool {
    v.additional_rules matches Some(PropFilterRules::Match(m)) ==> {
        &&& !(m.time_or_text is None && m.param_filter@.len() == 0)
        &&& !(m.time_or_text matches Some(TimeOrText::Time(_)))
        &&& !(m.time_or_text matches Some(TimeOrText::Text(t)) && collation_misnamed(t@))
        &&& forall|i: int| 0 <= i < m.param_filter@.len() ==> !param_filter_misnamed((#[trigger] m.param_filter@[i])@)
    }
}

/// Reading the rules of a property filter opened at `o`, from its `k`-th
/// parameter filter on, the text match (if any) read: all its parameter
/// filters.
#[verifier::rlimit(80)]
proof fn lemma_prop_rules_tail(
    evs: Seq<XmlEvent>,
    ws: Seq<WView>,
    o: int,
    ps: Seq<int>,
    base: int,
    ttv: Option<TimeOrTextView>,
    pfs: Seq<ParamFilter>,
    k: int,
)
    requires
        cal_reads_back_at(evs, o, ws),
        parents_ok(evs, ps),
        ps.len() > 0 && ps.last() == o,
        evs[o] is Start,
        1 <= base,
        ws.len() == base + written_all(pfs).len() + 1,
        forall|i: int| 0 <= i < written_all(pfs).len() ==> #[trigger] ws[base + i] == written_all(pfs)[i],
        ws[base + written_all(pfs).len()] is End,
        forall|i: int| 0 <= i < pfs.len() ==> !param_filter_misnamed((#[trigger] pfs[i])@),
        !(ttv is None && pfs.len() == 0),
        0 <= k <= pfs.len(),
    ensures
        cal_prop_rules_loop(evs, at_in(o + after_written(base, pfs, k), ps), ttv, views(pfs.take(k))) == (
            Ok::<_, ParsingError>(Some(PropFilterRulesView::Match { time_or_text: ttv, param_filter: views(pfs) })),
            at_in(o + after_written(base, pfs, pfs.len() as int), ps),
        ),
    decreases pfs.len() - k,
{
    let lk = written_all(pfs.take(k)).len() as int;
    let pk = o + base + lk;
    let st = at_in(pk, ps);
    reveal_strlit("is-not-defined");
    reveal_strlit("time-range");
    reveal_strlit("text-match");
    reveal_strlit("param-filter");
    lemma_written_all_prefix(pfs, k);
    assert(parent_has_child_spec(evs, st));
    assert(cal_event_reads_as(evs[o + (base + lk)], ws[base + lk]));
    assert(state_ok(evs, st));
    if k < pfs.len() {
        let e = pfs[k];
        let ew = e.qwrite_spec(Seq::empty());
        lemma_written_all_prefix(pfs, k + 1);
        assert(pfs.take(k + 1).drop_last() =~= pfs.take(k));
        assert(pfs.take(k + 1).last() == e);
        assert(written_all(pfs.take(k + 1)) == written_all(pfs.take(k)) + ew);
        assert forall|i: int| 0 <= i < ew.len() implies cal_event_reads_as(#[trigger] evs[st.pos + i], ew[i]) by {
            assert(written_all(pfs.take(k + 1))[lk + i] == ew[i]);
            assert(ws[base + (lk + i)] == written_all(pfs)[lk + i]);
            assert(cal_event_reads_as(evs[o + (base + (lk + i))], ws[base + (lk + i)]));
        }
        assert(cal_event_reads_as(evs[o + (base + lk + ew.len())], ws[base + lk + ew.len()]));
        assert(declarations_only(Seq::empty()));
        lemma_param_filter_at(evs, st, e, Seq::empty());
        let q = cal_q("param-filter"@);
        assert(q.skip(2) =~= "param-filter"@);
        assert(q[0] == 'C' && q[1] == ':');
        assert(cal_event_reads_as(evs[st.pos + 0], ew[0]));
        assert(!is_tag_spec(evs[pk], CAL_URN@, "is-not-defined"@));
        assert(!is_tag_spec(evs[pk], CAL_URN@, "time-range"@));
        assert(!is_tag_spec(evs[pk], CAL_URN@, "text-match"@));
        assert(open_spec(evs, st, CAL_URN@, "is-not-defined"@) == (Err::<int, ParsingError>(ParsingError::Recoverable), st));
        assert(time_or_text_spec(evs, st) == (Err::<TimeOrTextView, ParsingError>(ParsingError::Recoverable), st));
        assert(after_written(base, pfs, k + 1) == base + lk + ew.len());
        assert(views(pfs.take(k)).push(e@) =~= views(pfs.take(k + 1)));
        lemma_prop_rules_tail(evs, ws, o, ps, base, ttv, pfs, k + 1);
    } else {
        assert(pfs.take(k) =~= pfs);
        assert(evs[pk] is End);
        assert(open_spec(evs, st, CAL_URN@, "is-not-defined"@) == (Err::<int, ParsingError>(ParsingError::Recoverable), st));
        assert(time_or_text_spec(evs, st) == (Err::<TimeOrTextView, ParsingError>(ParsingError::Recoverable), st));
        assert(cal_param_filter_spec(evs, st) == (Err::<ParamFilterView, ParsingError>(ParsingError::Recoverable), st));
    }
}

/// Reading a property filter written at the current event, with the
/// namespace declarations `ns`: the filter, and the cursor after it.
#[verifier::spinoff_prover]
#[verifier::rlimit(100)]
proof fn lemma_prop_filter_at(evs: Seq<XmlEvent>, st: RState, v: PropFilter, ns: Seq<(Seq<char>, Seq<char>)>)
    requires
        state_ok(evs, st),
        cal_reads_back_at(evs, st.pos, v.qwrite_spec(ns)),
        declarations_only(ns),
        prop_filter_law_ok(v),
    ensures
        cal_prop_filter_spec(evs, st) == (
            Ok::<_, ParsingError>(v@),
            RState {
                pos: st.pos + v.qwrite_spec(ns).len(),
                prev: Some(st.pos + v.qwrite_spec(ns).len() - 1),
                parents: st.parents,
            },
        ),
{
    let p = st.pos;
    let a = ns + name_attr(v.name.0@);
    let q = cal_q("prop-filter"@);
    let ws = v.qwrite_spec(ns);
    assert(q.skip(2) =~= "prop-filter"@);
    assert(q[0] == 'C' && q[1] == ':');
    assert(cal_event_reads_as(evs[p + 0], ws[0]));
    let t = match evs[p] {
        XmlEvent::Start(t) => t,
        XmlEvent::Empty(t) => t,
        _ => arbitrary(),
    };
    reveal_strlit("xmlns");
    reveal_strlit("name");
    reveal_strlit("is-not-defined");
    reveal_strlit("time-range");
    reveal_strlit("text-match");
    lemma_attr_read(t.attrs@, a, "name"@);
    assert("name"@[0] != "xmlns"@[0]);
    lemma_attr_after_declarations(ns, name_attr(v.name.0@), "name"@);
    assert(written_attr(name_attr(v.name.0@), "name"@) == Some(v.name.0@));
    let pp = st.parents.push(p);
    assert(pp.drop_last() =~= st.parents);
    assert(parents_ok(evs, pp));
    match v.additional_rules {
        None => {
            assert(ws == cal_atom("prop-filter"@, a));
            let s1 = RState { pos: p, prev: Some(p), parents: pp };
            assert(open_spec(evs, st, CAL_URN@, "prop-filter"@) == (Ok::<int, ParsingError>(p), s1));
            assert(prev_attr_spec(evs, s1, "name"@) == Some(v.name.0@));
            assert(!parent_has_child_spec(evs, s1));
        },
        Some(r) => {
            let rw = prop_rules_written(r);
            assert(ws == around(q, a, rw));
            let s1 = at_in(p + 1, pp);
            assert(open_spec(evs, st, CAL_URN@, "prop-filter"@) == (Ok::<int, ParsingError>(p), s1));
            assert(prev_attr_spec(evs, s1, "name"@) == Some(v.name.0@));
            assert(parent_has_child_spec(evs, s1));
            let m = rw.len() as int;
            assert(ws.len() == m + 2);
            assert forall|i: int| 0 <= i < m implies #[trigger] ws[1 + i] == rw[i] by {}
            match r {
                PropFilterRules::IsNotDefined => {
                    assert(cal_event_reads_as(evs[p + 1], ws[1]));
                    assert(cal_event_reads_as(evs[p + 2], ws[2]));
                    let qi = cal_q("is-not-defined"@);
                    assert(qi.skip(2) =~= "is-not-defined"@);
                    assert(qi[0] == 'C' && qi[1] == ':');
                    let ppp = pp.push(p + 1);
                    let si = RState { pos: p + 1, prev: Some(p + 1), parents: ppp };
                    assert(open_spec(evs, s1, CAL_URN@, "is-not-defined"@) == (Ok::<int, ParsingError>(p + 1), si));
                    assert(!parent_has_child_spec(evs, si));
                    assert(ppp.drop_last() =~= pp);
                    assert(close_spec(evs, si) == (Ok::<int, ParsingError>(p + 1), at_in(p + 2, pp)));
                    assert(cal_prop_rules_loop(evs, s1, None, Seq::empty()) == (
                        Ok::<_, ParsingError>(Some(r@)),
                        at_in(p + 2, pp),
                    ));
                    assert(close_spec(evs, at_in(p + 2, pp)) == next_spec(evs, pop_parent(at_in(p + 2, pp))));
                },
                PropFilterRules::Match(pm) => {
                    let pfs = pm.param_filter@;
                    let tw = match pm.time_or_text {
                        Some(x) => x.qwrite_spec(Seq::empty()),
                        None => Seq::<WView>::empty(),
                    };
                    let base: int = 1 + tw.len() as int;
                    assert(rw == tw + written_all(pfs));
                    assert forall|i: int| 0 <= i < written_all(pfs).len() implies #[trigger] ws[base + i] == written_all(pfs)[i] by {
                        assert(ws[1 + (tw.len() + i)] == rw[tw.len() + i]);
                    }
                    assert(ws[base + written_all(pfs).len()] == WView::End(q));
                    assert(pfs.take(0) =~= Seq::<ParamFilter>::empty());
                    assert(views(Seq::<ParamFilter>::empty()) =~= Seq::<ParamFilterView>::empty());
                    let n = pfs.len() as int;
                    let ttv = match pm.time_or_text {
                        Some(x) => Some(x@),
                        None => None,
                    };
                    lemma_prop_rules_tail(evs, ws, p, pp, base, ttv, pfs, 0);
                    match pm.time_or_text {
                        None => {
                            assert(after_written(base, pfs, 0) == 1);
                        },
                        Some(x) => {
                            let tm = match x {
                                TimeOrText::Text(tm) => tm,
                                _ => arbitrary(),
                            };
                            assert(tw == tm.qwrite_spec(Seq::empty()));
                            assert(declarations_only(Seq::empty()));
                            assert forall|i: int| 0 <= i < 3 implies cal_event_reads_as(
                                #[trigger] evs[s1.pos + i],
                                tm.qwrite_spec(Seq::empty())[i],
                            ) by {
                                assert(ws[1 + i] == rw[i]);
                                assert(cal_event_reads_as(evs[p + (1 + i)], ws[1 + i]));
                            }
                            assert(cal_event_reads_as(evs[p + 4], ws[4]));
                            lemma_text_match_at(evs, s1, tm, Seq::empty());
                            let qt = cal_q("text-match"@);
                            assert(qt.skip(2) =~= "text-match"@);
                            assert(qt[0] == 'C' && qt[1] == ':');
                            assert(ws[1] == WView::Start(qt, text_match_attrs(tm)));
                            assert(cal_event_reads_as(evs[p + 1], ws[1]));
                            assert("text-match"@[1] != "time-range"@[1]);
                            assert(!is_tag_spec(evs[p + 1], CAL_URN@, "is-not-defined"@));
                            assert(!is_tag_spec(evs[p + 1], CAL_URN@, "time-range"@));
                            assert(open_spec(evs, s1, CAL_URN@, "is-not-defined"@) == (
                                Err::<int, ParsingError>(ParsingError::Recoverable),
                                s1,
                            ));
                            assert(time_or_text_spec(evs, s1) == (Ok::<_, ParsingError>(x@), at_in(p + 4, pp)));
                            assert(after_written(base, pfs, 0) == 4);
                            assert(parent_has_child_spec(evs, at_in(p + 4, pp)));
                            if n > 0 {
                                let e = pfs[0];
                                let ew = e.qwrite_spec(Seq::empty());
                                lemma_written_all_prefix(pfs, 1);
                                assert(pfs.take(1).drop_last() =~= Seq::<ParamFilter>::empty());
                                assert(written_all(pfs.take(1)) =~= ew);
                                assert forall|i: int| 0 <= i < ew.len() implies cal_event_reads_as(#[trigger] evs[(p + 4) + i], ew[i]) by {
                                    assert(written_all(pfs.take(1))[i] == ew[i]);
                                    assert(ws[base + i] == written_all(pfs)[i]);
                                    assert(cal_event_reads_as(evs[p + (base + i)], ws[base + i]));
                                }
                                assert(cal_event_reads_as(evs[p + (4 + ew.len() as int)], ws[4 + ew.len() as int]));
                                lemma_param_filter_at(evs, at_in(p + 4, pp), e, Seq::empty());
                                assert(Seq::<ParamFilterView>::empty().push(e@) =~= views(pfs.take(1)));
                                assert(after_written(base, pfs, 1) == 4 + ew.len());
                                lemma_prop_rules_tail(evs, ws, p, pp, base, ttv, pfs, 1);
                            } else {
                                assert(cal_event_reads_as(evs[p + 4], ws[4]));
                                assert(evs[p + 4] is End);
                                assert(cal_param_filter_spec(evs, at_in(p + 4, pp)) == (
                                    Err::<ParamFilterView, ParsingError>(ParsingError::Recoverable),
                                    at_in(p + 4, pp),
                                ));
                            }
                        },
                    }
                    let e = after_written(base, pfs, n);
                    assert(pfs.take(n) =~= pfs);
                    assert(cal_prop_rules_loop(evs, s1, None, Seq::empty()) == (
                        Ok::<_, ParsingError>(Some(r@)),
                        at_in(p + e, pp),
                    ));
                    assert(cal_event_reads_as(evs[p + e], ws[e]));
                    assert(close_spec(evs, at_in(p + e, pp)) == next_spec(evs, pop_parent(at_in(p + e, pp))));
                },
            }
        },
    }
}

/// Events read back from the start are events read back from position 0.
proof fn lemma_reads_back_at_start(evs: Seq<XmlEvent>, ws: Seq<WView>)
    requires
        cal_reads_back(evs, ws),
    ensures
        cal_reads_back_at(evs, 0, ws),
        state_ok(evs, start_state()),
{
    assert forall|i: int| 0 <= i < ws.len() implies cal_event_reads_as(#[trigger] evs[0 + i], ws[i]) by {
        assert(evs[0 + i] == evs[i]);
    }
    assert(cal_event_reads_as(evs[0], ws[0]) || ws.len() == 0);
}

/// A written property filter reads back as the same filter, but for rules
/// that match nothing (written as an empty element, read as no rules), a
/// time range (its dates go through the outside date-time parser), and a
/// text match whose unknown collation bears the name of a known one.
pub proof fn law_cal_prop_filter_roundtrip(v: PropFilter, ns: Seq<(Seq<char>, Seq<char>)>, evs: Seq<XmlEvent>)
    requires
        cal_reads_back(evs, v.qwrite_spec(ns)),
        declarations_only(ns),
        prop_filter_law_ok(v),
    ensures
        <PropFilter as QRead>::qread_spec(evs, start_state()).0 == Ok::<_, ParsingError>(v@),
{
    lemma_reads_back_at_start(evs, v.qwrite_spec(ns));
    lemma_prop_filter_at(evs, start_state(), v, ns);
}


/// What the law on component filters leaves out, at every depth: a time
/// range, rules that match nothing, misnamed component types, and what the
/// law on property filters leaves out.
pub open spec fn comp_filter_law_ok(c: CompFilter) -> bool
    decreases c,
{
    &&& !(c.name matches Component::Unknown(s) && known_component_name(s@))
    &&& comp_rules_law_ok(c.additional_rules)
}

/// `comp_filter_law_ok` for the rules of a component filter.
pub open spec fn comp_rules_law_ok(r: Option<CompFilterRules>) -> bool
    decreases r,
{
    match r {
        Some(CompFilterRules::Matches(m)) => {
            &&& m.time_range is None
            &&& !(m.prop_filter@.len() == 0 && m.comp_filter@.len() == 0)
            &&& forall|i: int| 0 <= i < m.prop_filter@.len() ==> prop_filter_law_ok(#[trigger] m.prop_filter@[i])
            &&& comp_filters_law_ok(m.comp_filter@)
        },
        _ => true,
    }
}

/// `comp_filter_law_ok` for each of a list of component filters.
pub open spec fn comp_filters_law_ok(s: Seq<CompFilter>) -> bool
    decreases s,
{
    if s.len() == 0 {
        true
    } else {
        comp_filters_law_ok(s.drop_last()) && comp_filter_law_ok(s.last())
    }
}

/// Each filter of a list that keeps to the law keeps to it.
proof fn lemma_comp_filters_law_ok_at(s: Seq<CompFilter>, k: int)
    requires
        comp_filters_law_ok(s),
        0 <= k < s.len(),
    ensures
        comp_filter_law_ok(s[k]),
    decreases s.len(),
{
    if k < s.len() - 1 {
        assert(s.drop_last()[k] == s[k]);
        lemma_comp_filters_law_ok_at(s.drop_last(), k);
    }
}

/// A list of component filters has a view for each.
proof fn lemma_comp_filters_view_len(s: Seq<CompFilter>)
    ensures
        comp_filters_view(s).len() == s.len(),
    decreases s.len(),
{
    if s.len() > 0 {
        lemma_comp_filters_view_len(s.drop_last());
    }
}

/// The events of the first `j` filters of a list begin the events of the
/// whole list.
proof fn lemma_comp_filters_prefix(s: Seq<CompFilter>, j: int)
    requires
        0 <= j <= s.len(),
    ensures
        comp_filters_written(s.take(j)).len() <= comp_filters_written(s).len(),
        forall|i: int|
            0 <= i < comp_filters_written(s.take(j)).len() ==> #[trigger] comp_filters_written(s)[i] == comp_filters_written(
                s.take(j),
            )[i],
    decreases s.len() - j,
{
    if j < s.len() {
        lemma_comp_filters_prefix(s, j + 1);
        assert(s.take(j + 1).drop_last() =~= s.take(j));
        assert(comp_filters_written(s.take(j + 1)) == comp_filters_written(s.take(j)) + comp_filter_written(
            s.take(j + 1).last(),
            Seq::empty(),
        ));
    } else {
        assert(s.take(j) =~= s);
    }
}

/// Where the events of the first `j` component filters of a list end,
/// from `base`.
pub open spec fn after_comp_filters(base: int, s: Seq<CompFilter>, j: int) -> int {
    base + comp_filters_written(s.take(j)).len()
}

/// What the rules of a component filter read back as, time range aside.
pub open spec fn matches_view(m: CompFilterMatch) -> Option<CompFilterRulesView> {
    Some(CompFilterRulesView::Matches {
        time_range: None,
        prop_filter: views(m.prop_filter@),
        comp_filter: comp_filters_view(m.comp_filter@),
    })
}

/// Reading the rules of a component filter opened at `o`, from its `j`-th
/// nested component filter on, its property filters read.
#[verifier::spinoff_prover]
#[verifier::rlimit(100)]
proof fn lemma_comp_rules_cf(
    evs: Seq<XmlEvent>,
    ws: Seq<WView>,
    o: int,
    ps: Seq<int>,
    c: CompFilter,
    m: CompFilterMatch,
    j: int,
)
    requires
        c.additional_rules == Some(CompFilterRules::Matches(m)),
        comp_filter_law_ok(c),
        cal_reads_back_at(evs, o, ws),
        parents_ok(evs, ps),
        ps.len() > 0 && ps.last() == o,
        evs[o] is Start,
        ws.len() == 1 + written_all(m.prop_filter@).len() + comp_filters_written(m.comp_filter@).len() + 1,
        forall|i: int|
            0 <= i < comp_filters_written(m.comp_filter@).len() ==> #[trigger] ws[1 + written_all(m.prop_filter@).len() + i]
                == comp_filters_written(m.comp_filter@)[i],
        ws[ws.len() - 1] is End,
        0 <= j <= m.comp_filter@.len(),
    ensures
        comp_rules_loop(
            evs,
            at_in(o + after_comp_filters(1 + written_all(m.prop_filter@).len() as int, m.comp_filter@, j), ps),
            None,
            views(m.prop_filter@),
            comp_filters_view(m.comp_filter@.take(j)),
        ) == (Ok::<_, ParsingError>(matches_view(m)), at_in(o + ws.len() - 1, ps)),
    decreases c, 0int, m.comp_filter@.len() - j,
{
    let cfs = m.comp_filter@;
    let pfs = m.prop_filter@;
    let b: int = 1 + written_all(pfs).len() as int;
    let lj = comp_filters_written(cfs.take(j)).len() as int;
    let pj = o + b + lj;
    let st = at_in(pj, ps);
    reveal_strlit("is-not-defined");
    reveal_strlit("time-range");
    reveal_strlit("prop-filter");
    reveal_strlit("comp-filter");
    lemma_comp_filters_prefix(cfs, j);
    lemma_comp_filters_prefix(cfs, cfs.len() as int);
    assert(cfs.take(cfs.len() as int) =~= cfs);
    assert(parent_has_child_spec(evs, st));
    assert(cal_event_reads_as(evs[o + (b + lj)], ws[b + lj]));
    assert(state_ok(evs, st));
    if j < cfs.len() {
        let e = cfs[j];
        let ew = comp_filter_written(e, Seq::empty());
        lemma_comp_filters_prefix(cfs, j + 1);
        assert(cfs.take(j + 1).drop_last() =~= cfs.take(j));
        assert(cfs.take(j + 1).last() == e);
        assert(comp_filters_written(cfs.take(j + 1)) == comp_filters_written(cfs.take(j)) + ew);
        assert forall|i: int| 0 <= i < ew.len() implies cal_event_reads_as(#[trigger] evs[st.pos + i], ew[i]) by {
            assert(comp_filters_written(cfs.take(j + 1))[lj + i] == ew[i]);
            assert(ws[b + (lj + i)] == comp_filters_written(cfs)[lj + i]);
            assert(cal_event_reads_as(evs[o + (b + (lj + i))], ws[b + (lj + i)]));
        }
        assert(cal_event_reads_as(evs[o + (b + lj + ew.len())], ws[b + lj + ew.len()]));
        assert(declarations_only(Seq::empty()));
        lemma_comp_filter_decreases(c, m, j);
        lemma_comp_filters_law_ok_at(cfs, j);
        lemma_comp_filter_at(evs, st, e, Seq::empty());
        let q = cal_q("comp-filter"@);
        assert(q.skip(2) =~= "comp-filter"@);
        assert(q[0] == 'C' && q[1] == ':');
        assert(cal_event_reads_as(evs[st.pos + 0], ew[0]));
        assert("comp-filter"@[0] != "prop-filter"@[0]);
        assert(!is_tag_spec(evs[pj], CAL_URN@, "is-not-defined"@));
        assert(!is_tag_spec(evs[pj], CAL_URN@, "time-range"@));
        assert(!is_tag_spec(evs[pj], CAL_URN@, "prop-filter"@));
        assert(open_spec(evs, st, CAL_URN@, "is-not-defined"@) == (Err::<int, ParsingError>(ParsingError::Recoverable), st));
        assert(time_range_spec(evs, st) == (Err::<TimeRange, ParsingError>(ParsingError::Recoverable), st));
        assert(cal_prop_filter_spec(evs, st) == (Err::<PropFilterView, ParsingError>(ParsingError::Recoverable), st));
        assert(after_comp_filters(b, cfs, j + 1) == b + lj + ew.len());
        assert(comp_filters_view(cfs.take(j)).push(e@) =~= comp_filters_view(cfs.take(j + 1)));
        lemma_comp_rules_cf(evs, ws, o, ps, c, m, j + 1);
    } else {
        assert(cfs.take(j) =~= cfs);
        assert(pj == o + ws.len() - 1);
        assert(evs[pj] is End);
        lemma_comp_filters_view_len(cfs);
        assert(open_spec(evs, st, CAL_URN@, "is-not-defined"@) == (Err::<int, ParsingError>(ParsingError::Recoverable), st));
        assert(time_range_spec(evs, st) == (Err::<TimeRange, ParsingError>(ParsingError::Recoverable), st));
        assert(cal_prop_filter_spec(evs, st) == (Err::<PropFilterView, ParsingError>(ParsingError::Recoverable), st));
        assert(comp_filter_spec(evs, st) == (Err::<CompFilterView, ParsingError>(ParsingError::Recoverable), st));
    }
}

/// Reading the rules of a component filter opened at `o`, from its `k`-th
/// property filter on: all its property and component filters.
#[verifier::spinoff_prover]
#[verifier::rlimit(100)]
proof fn lemma_comp_rules_pf(
    evs: Seq<XmlEvent>,
    ws: Seq<WView>,
    o: int,
    ps: Seq<int>,
    c: CompFilter,
    m: CompFilterMatch,
    k: int,
)
    requires
        c.additional_rules == Some(CompFilterRules::Matches(m)),
        comp_filter_law_ok(c),
        cal_reads_back_at(evs, o, ws),
        parents_ok(evs, ps),
        ps.len() > 0 && ps.last() == o,
        evs[o] is Start,
        ws.len() == 1 + written_all(m.prop_filter@).len() + comp_filters_written(m.comp_filter@).len() + 1,
        forall|i: int| 0 <= i < written_all(m.prop_filter@).len() ==> #[trigger] ws[1 + i] == written_all(m.prop_filter@)[i],
        forall|i: int|
            0 <= i < comp_filters_written(m.comp_filter@).len() ==> #[trigger] ws[1 + written_all(m.prop_filter@).len() + i]
                == comp_filters_written(m.comp_filter@)[i],
        ws[ws.len() - 1] is End,
        0 <= k < m.prop_filter@.len(),
    ensures
        comp_rules_loop(
            evs,
            at_in(o + after_written(1, m.prop_filter@, k), ps),
            None,
            views(m.prop_filter@.take(k)),
            Seq::empty(),
        ) == (Ok::<_, ParsingError>(matches_view(m)), at_in(o + ws.len() - 1, ps)),
    decreases c, 1int, m.prop_filter@.len() - k,
{
    let cfs = m.comp_filter@;
    let pfs = m.prop_filter@;
    let lp = written_all(pfs).len() as int;
    let lk = written_all(pfs.take(k)).len() as int;
    let pk = o + 1 + lk;
    let st = at_in(pk, ps);
    reveal_strlit("is-not-defined");
    reveal_strlit("time-range");
    reveal_strlit("prop-filter");
    reveal_strlit("comp-filter");
    lemma_written_all_prefix(pfs, k);
    assert(parent_has_child_spec(evs, st));
    assert(cal_event_reads_as(evs[o + (1 + lk)], ws[1 + lk]));
    assert(state_ok(evs, st));
    let e = pfs[k];
    let ew = e.qwrite_spec(Seq::empty());
    lemma_written_all_prefix(pfs, k + 1);
    assert(pfs.take(k + 1).drop_last() =~= pfs.take(k));
    assert(pfs.take(k + 1).last() == e);
    assert(written_all(pfs.take(k + 1)) == written_all(pfs.take(k)) + ew);
    assert forall|i: int| 0 <= i < ew.len() implies cal_event_reads_as(#[trigger] evs[st.pos + i], ew[i]) by {
        assert(written_all(pfs.take(k + 1))[lk + i] == ew[i]);
        assert(ws[1 + (lk + i)] == written_all(pfs)[lk + i]);
        assert(cal_event_reads_as(evs[o + (1 + (lk + i))], ws[1 + (lk + i)]));
    }
    let nxt = 1 + lk + ew.len();
    assert(cal_event_reads_as(evs[o + nxt], ws[nxt]));
    assert(declarations_only(Seq::empty()));
    assert(prop_filter_law_ok(e));
    lemma_prop_filter_at(evs, st, e, Seq::empty());
    let q = cal_q("prop-filter"@);
    assert(q.skip(2) =~= "prop-filter"@);
    assert(q[0] == 'C' && q[1] == ':');
    assert(cal_event_reads_as(evs[st.pos + 0], ew[0]));
    assert(!is_tag_spec(evs[pk], CAL_URN@, "is-not-defined"@));
    assert(!is_tag_spec(evs[pk], CAL_URN@, "time-range"@));
    assert(open_spec(evs, st, CAL_URN@, "is-not-defined"@) == (Err::<int, ParsingError>(ParsingError::Recoverable), st));
    assert(time_range_spec(evs, st) == (Err::<TimeRange, ParsingError>(ParsingError::Recoverable), st));
    let s2 = at_in(o + nxt, ps);
    assert(views(pfs.take(k)).push(e@) =~= views(pfs.take(k + 1)));
    assert(after_written(1, pfs, k + 1) == nxt);
    assert(parent_has_child_spec(evs, s2));
    assert(state_ok(evs, s2));
    if k + 1 < pfs.len() {
        lemma_written_all_prefix(pfs, k + 2);
        assert(pfs.take(k + 2).drop_last() =~= pfs.take(k + 1));
        assert(pfs.take(k + 2).last() == pfs[k + 1]);
        let ew2 = pfs[k + 1].qwrite_spec(Seq::empty());
        assert(written_all(pfs.take(k + 2)) == written_all(pfs.take(k + 1)) + ew2);
        assert(written_all(pfs.take(k + 2))[nxt - 1] == ew2[0]);
        assert(ws[1 + (nxt - 1)] == written_all(pfs)[nxt - 1]);
        let q2 = cal_q("prop-filter"@);
        assert("comp-filter"@[0] != "prop-filter"@[0]);
        assert(!is_tag_spec(evs[o + nxt], CAL_URN@, "comp-filter"@));
        assert(comp_filter_spec(evs, s2) == (Err::<CompFilterView, ParsingError>(ParsingError::Recoverable), s2));
        lemma_comp_rules_pf(evs, ws, o, ps, c, m, k + 1);
    } else {
        assert(pfs.take(k + 1) =~= pfs);
        assert(nxt == 1 + lp);
        assert(cfs.take(0) =~= Seq::<CompFilter>::empty());
        assert(comp_filters_view(Seq::<CompFilter>::empty()) =~= Seq::<CompFilterView>::empty());
        assert(after_comp_filters(1 + lp, cfs, 0) == nxt);
        if cfs.len() > 0 {
            let e0 = cfs[0];
            let ew0 = comp_filter_written(e0, Seq::empty());
            lemma_comp_filters_prefix(cfs, 1);
            assert(cfs.take(1).drop_last() =~= Seq::<CompFilter>::empty());
            assert(cfs.take(1).last() == e0);
            assert(comp_filters_written(cfs.take(1)) =~= ew0);
            assert forall|i: int| 0 <= i < ew0.len() implies cal_event_reads_as(#[trigger] evs[s2.pos + i], ew0[i]) by {
                assert(comp_filters_written(cfs.take(1))[i] == ew0[i]);
                assert(ws[1 + lp + i] == comp_filters_written(cfs)[i]);
                assert(cal_event_reads_as(evs[o + (1 + lp + i)], ws[1 + lp + i]));
            }
            assert(cal_event_reads_as(evs[o + (1 + lp + ew0.len())], ws[1 + lp + ew0.len()]));
            lemma_comp_filter_decreases(c, m, 0);
            lemma_comp_filters_law_ok_at(cfs, 0);
            lemma_comp_filter_at(evs, s2, e0, Seq::empty());
            assert(Seq::<CompFilterView>::empty().push(e0@) =~= comp_filters_view(cfs.take(1)));
            assert(after_comp_filters(1 + lp, cfs, 1) == 1 + lp + ew0.len());
            lemma_comp_rules_cf(evs, ws, o, ps, c, m, 1);
        } else {
            assert(cfs.take(0) =~= cfs);
            assert(evs[o + nxt] is End);
            assert(comp_filter_spec(evs, s2) == (Err::<CompFilterView, ParsingError>(ParsingError::Recoverable), s2));
            lemma_comp_rules_cf(evs, ws, o, ps, c, m, 0);
        }
    }
}

/// Reading a component filter written at the current event, with the
/// namespace declarations `ns`: the filter, and the cursor after it.
#[verifier::spinoff_prover]
#[verifier::rlimit(100)]
proof fn lemma_comp_filter_at(evs: Seq<XmlEvent>, st: RState, c: CompFilter, ns: Seq<(Seq<char>, Seq<char>)>)
    requires
        state_ok(evs, st),
        cal_reads_back_at(evs, st.pos, comp_filter_written(c, ns)),
        declarations_only(ns),
        comp_filter_law_ok(c),
    ensures
        comp_filter_spec(evs, st) == (
            Ok::<_, ParsingError>(comp_filter_view(c)),
            RState {
                pos: st.pos + comp_filter_written(c, ns).len(),
                prev: Some(st.pos + comp_filter_written(c, ns).len() - 1),
                parents: st.parents,
            },
        ),
    decreases c, 2int, 0int,
{
    let p = st.pos;
    let a = ns + name_attr(component_name(c.name));
    let q = cal_q("comp-filter"@);
    let ws = comp_filter_written(c, ns);
    assert(q.skip(2) =~= "comp-filter"@);
    assert(q[0] == 'C' && q[1] == ':');
    assert(cal_event_reads_as(evs[p + 0], ws[0]));
    let t = match evs[p] {
        XmlEvent::Start(t) => t,
        XmlEvent::Empty(t) => t,
        _ => arbitrary(),
    };
    reveal_strlit("xmlns");
    reveal_strlit("name");
    reveal_strlit("is-not-defined");
    lemma_attr_read(t.attrs@, a, "name"@);
    assert("name"@[0] != "xmlns"@[0]);
    lemma_attr_after_declarations(ns, name_attr(component_name(c.name)), "name"@);
    assert(written_attr(name_attr(component_name(c.name)), "name"@) == Some(component_name(c.name)));
    lemma_component_reads_back(c.name);
    let pp = st.parents.push(p);
    assert(pp.drop_last() =~= st.parents);
    assert(parents_ok(evs, pp));
    match c.additional_rules {
        None => {
            assert(ws == cal_atom("comp-filter"@, a));
            let s1 = RState { pos: p, prev: Some(p), parents: pp };
            assert(open_spec(evs, st, CAL_URN@, "comp-filter"@) == (Ok::<int, ParsingError>(p), s1));
            assert(prev_attr_spec(evs, s1, "name"@) == Some(component_name(c.name)));
            assert(!parent_has_child_spec(evs, s1));
        },
        Some(r) => {
            let rw = comp_rules_written(r);
            assert(ws == around(q, a, rw));
            let s1 = at_in(p + 1, pp);
            assert(open_spec(evs, st, CAL_URN@, "comp-filter"@) == (Ok::<int, ParsingError>(p), s1));
            assert(prev_attr_spec(evs, s1, "name"@) == Some(component_name(c.name)));
            assert(parent_has_child_spec(evs, s1));
            let n = rw.len() as int;
            assert(ws.len() == n + 2);
            assert forall|i: int| 0 <= i < n implies #[trigger] ws[1 + i] == rw[i] by {}
            match r {
                CompFilterRules::IsNotDefined => {
                    assert(cal_event_reads_as(evs[p + 1], ws[1]));
                    assert(cal_event_reads_as(evs[p + 2], ws[2]));
                    let qi = cal_q("is-not-defined"@);
                    assert(qi.skip(2) =~= "is-not-defined"@);
                    assert(qi[0] == 'C' && qi[1] == ':');
                    let ppp = pp.push(p + 1);
                    let si = RState { pos: p + 1, prev: Some(p + 1), parents: ppp };
                    assert(open_spec(evs, s1, CAL_URN@, "is-not-defined"@) == (Ok::<int, ParsingError>(p + 1), si));
                    assert(!parent_has_child_spec(evs, si));
                    assert(ppp.drop_last() =~= pp);
                    assert(close_spec(evs, si) == (Ok::<int, ParsingError>(p + 1), at_in(p + 2, pp)));
                    assert(comp_rules_loop(evs, s1, None, Seq::empty(), Seq::empty()) == (
                        Ok::<_, ParsingError>(comp_rules_view(Some(r))),
                        at_in(p + 2, pp),
                    ));
                    assert(close_spec(evs, at_in(p + 2, pp)) == next_spec(evs, pop_parent(at_in(p + 2, pp))));
                },
                CompFilterRules::Matches(m) => {
                    let pfs = m.prop_filter@;
                    let cfs = m.comp_filter@;
                    assert(m.time_range is None);
                    assert(rw =~= written_all(pfs) + comp_filters_written(cfs));
                    let lp = written_all(pfs).len() as int;
                    assert forall|i: int| 0 <= i < lp implies #[trigger] ws[1 + i] == written_all(pfs)[i] by {
                        assert(ws[1 + i] == rw[i]);
                    }
                    assert forall|i: int| 0 <= i < comp_filters_written(cfs).len() implies #[trigger] ws[1 + lp + i]
                        == comp_filters_written(cfs)[i] by {
                        assert(ws[1 + (lp + i)] == rw[lp + i]);
                    }
                    assert(ws[ws.len() - 1] == WView::End(q));
                    assert(comp_rules_view(Some(r)) == matches_view(m));
                    assert(pfs.take(0) =~= Seq::<PropFilter>::empty());
                    assert(views(Seq::<PropFilter>::empty()) =~= Seq::<PropFilterView>::empty());
                    assert(after_written(1, pfs, 0) == 1);
                    if pfs.len() > 0 {
                        lemma_comp_rules_pf(evs, ws, p, pp, c, m, 0);
                    } else {
                        assert(cfs.take(0) =~= Seq::<CompFilter>::empty());
                        assert(comp_filters_view(Seq::<CompFilter>::empty()) =~= Seq::<CompFilterView>::empty());
                        assert(views(pfs) =~= Seq::<PropFilterView>::empty());
                        assert(after_comp_filters(1 + lp, cfs, 0) == 1);
                        lemma_comp_rules_cf(evs, ws, p, pp, c, m, 0);
                    }
                    let e = ws.len() - 1;
                    assert(cal_event_reads_as(evs[p + e], ws[e]));
                    assert(close_spec(evs, at_in(p + e, pp)) == next_spec(evs, pop_parent(at_in(p + e, pp))));
                },
            }
        },
    }
}

/// A written component filter reads back as the same filter, at every
/// depth, but for what `comp_filter_law_ok` leaves out: time ranges (their
/// dates go through the outside date-time parser), rules that match
/// nothing (written as an empty element, read as no rules), and unknown
/// names of component types or collations that bear a known name.
pub proof fn law_cal_comp_filter_roundtrip(v: CompFilter, ns: Seq<(Seq<char>, Seq<char>)>, evs: Seq<XmlEvent>)
    requires
        cal_reads_back(evs, v.qwrite_spec(ns)),
        declarations_only(ns),
        comp_filter_law_ok(v),
    ensures
        <CompFilter as QRead>::qread_spec(evs, start_state()).0 == Ok::<_, ParsingError>(v@),
{
    lemma_reads_back_at_start(evs, v.qwrite_spec(ns));
    lemma_comp_filter_at(evs, start_state(), v, ns);
}


/// A written calendar filter reads back as the same component filter, but
/// for what `comp_filter_law_ok` leaves out.
#[verifier::rlimit(40)]
pub proof fn law_cal_filter_roundtrip(v: Filter, ns: Seq<(Seq<char>, Seq<char>)>, evs: Seq<XmlEvent>)
    requires
        cal_reads_back(evs, v.qwrite_spec(ns)),
        comp_filter_law_ok(v.0),
    ensures
        <Filter as QRead>::qread_spec(evs, start_state()).0 == Ok::<_, ParsingError>(v@),
{
    let q = cal_q("filter"@);
    let cw = comp_filter_written(v.0, Seq::empty());
    let ws = v.qwrite_spec(ns);
    assert(ws == around(q, ns, cw));
    lemma_reads_back_at_start(evs, ws);
    assert(q.skip(2) =~= "filter"@);
    assert(q[0] == 'C' && q[1] == ':');
    assert(cal_event_reads_as(evs[0], ws[0]));
    let st = start_state();
    assert(Seq::<int>::empty().push(0) == seq![0int]);
    let s1 = at_in(1, seq![0int]);
    assert(open_spec(evs, st, CAL_URN@, "filter"@) == (Ok::<int, ParsingError>(0), s1));
    assert(parent_has_child_spec(evs, s1));
    assert(parents_ok(evs, seq![0int]));
    assert(state_ok(evs, s1)) by {
        assert(cal_event_reads_as(evs[0int + 1], ws[1]));
    }
    let n = cw.len() as int;
    assert(ws.len() == n + 2);
    assert forall|i: int| 0 <= i < n implies cal_event_reads_as(#[trigger] evs[s1.pos + i], cw[i]) by {
        assert(ws[1 + i] == cw[i]);
        assert(cal_event_reads_as(evs[0 + (1 + i)], ws[1 + i]));
    }
    assert(cal_event_reads_as(evs[0 + (1 + n)], ws[1 + n]));
    assert(declarations_only(Seq::empty()));
    lemma_comp_filter_at(evs, s1, v.0, Seq::empty());
    let s2 = at_in(1 + n, seq![0int]);
    assert(find_loop::<CompFilter>(evs, s1) == (Ok::<_, ParsingError>(v.0@), s2));
    assert(seq![0int].drop_last() == Seq::<int>::empty());
    assert(close_spec(evs, s2) == next_spec(evs, pop_parent(s2)));
}


/// Whether a written event opens the element `q`.
pub open spec fn opens(w: WView, q: Seq<char>) -> bool {
    ||| w matches WView::Start(x, _) && x == q
    ||| w matches WView::Empty(x, _) && x == q
}

/// The events of the `k`-th value of a list written from `base` on: where
/// they are, and that they read back.
proof fn lemma_item_events<T: QWrite>(evs: Seq<XmlEvent>, ws: Seq<WView>, base: int, s: Seq<T>, k: int)
    requires
        cal_reads_back_at(evs, 0, ws),
        0 <= base,
        0 <= k < s.len(),
        base + written_all(s).len() < ws.len(),
        forall|i: int| 0 <= i < written_all(s).len() ==> #[trigger] ws[base + i] == written_all(s)[i],
    ensures
        after_written(base, s, k + 1) == after_written(base, s, k) + s[k].qwrite_spec(Seq::empty()).len(),
        after_written(base, s, k + 1) <= base + written_all(s).len(),
        forall|i: int|
            0 <= i < s[k].qwrite_spec(Seq::empty()).len() ==> #[trigger] ws[after_written(base, s, k) + i] == s[k].qwrite_spec(
                Seq::empty(),
            )[i],
        cal_reads_back_at(evs, after_written(base, s, k), s[k].qwrite_spec(Seq::empty())),
{
    let e = s[k];
    let ew = e.qwrite_spec(Seq::empty());
    let lk = written_all(s.take(k)).len() as int;
    lemma_written_all_prefix(s, k + 1);
    assert(s.take(k + 1).drop_last() =~= s.take(k));
    assert(s.take(k + 1).last() == e);
    assert(written_all(s.take(k + 1)) == written_all(s.take(k)) + ew);
    assert forall|i: int| 0 <= i < ew.len() implies #[trigger] ws[after_written(base, s, k) + i] == ew[i] by {
        assert(written_all(s.take(k + 1))[lk + i] == ew[i]);
        assert(ws[base + (lk + i)] == written_all(s)[lk + i]);
    }
    assert forall|i: int| 0 <= i < ew.len() implies cal_event_reads_as(#[trigger] evs[after_written(base, s, k) + i], ew[i]) by {
        assert(ws[after_written(base, s, k) + i] == ew[i]);
        assert(cal_event_reads_as(evs[0 + (after_written(base, s, k) + i)], ws[after_written(base, s, k) + i]));
    }
    let nx = after_written(base, s, k) + ew.len();
    assert(cal_event_reads_as(evs[0 + nx], ws[nx]));
}

/// The first event a component, property or parameter filter writes
/// opens it.
proof fn lemma_filters_open(c: CompFilter, pf: PropFilter, qf: ParamFilter)
    ensures
        comp_filter_written(c, Seq::empty()).len() > 0 && opens(comp_filter_written(c, Seq::empty())[0], cal_q("comp-filter"@)),
        pf.qwrite_spec(Seq::empty()).len() > 0 && opens(pf.qwrite_spec(Seq::empty())[0], cal_q("prop-filter"@)),
        qf.qwrite_spec(Seq::empty()).len() > 0 && opens(qf.qwrite_spec(Seq::empty())[0], cal_q("param-filter"@)),
{
}

/// At an event that does not open the CalDAV element `x`: opening `x` is
/// `Recoverable`, and nothing moves.
proof fn lemma_not_opened(evs: Seq<XmlEvent>, st: RState, w: WView, y: Seq<char>, x: Seq<char>)
    requires
        cal_event_reads_as(evs[st.pos], w),
        w is End || (opens(w, cal_q(y)) && y != x),
    ensures
        open_spec(evs, st, CAL_URN@, x) == (Err::<int, ParsingError>(ParsingError::Recoverable), st),
{
    if !(w is End) {
        let q = cal_q(y);
        assert(q.skip(2) =~= y);
        assert(q[0] == 'C' && q[1] == ':');
    }
}

/// The state inside `<C:supported-filter>` at event `p`.
pub open spec fn sf_at(p: int) -> RState {
    at_in(p, seq![0int])
}

/// Whether the lists of a supported-filter violation keep to the laws of
/// their filters.
pub open spec fn supported_filter_law_ok(c: Seq<CompFilter>, pf: Seq<PropFilter>, qf: Seq<ParamFilter>) -> bool {
    &&& forall|i: int| 0 <= i < c.len() ==> comp_filter_law_ok(#[trigger] c[i])
    &&& forall|i: int| 0 <= i < pf.len() ==> prop_filter_law_ok(#[trigger] pf[i])
    &&& forall|i: int| 0 <= i < qf.len() ==> !param_filter_misnamed((#[trigger] qf[i])@)
}

/// The layout of a written supported-filter violation: its opening tag,
/// the component, property and parameter filters, its closing tag.
pub open spec fn sf_layout(ws: Seq<WView>, c: Seq<CompFilter>, pf: Seq<PropFilter>, qf: Seq<ParamFilter>) -> bool {
    let lc = written_all(c).len() as int;
    let lp = written_all(pf).len() as int;
    let lq = written_all(qf).len() as int;
    &&& ws.len() == 1 + lc + lp + lq + 1
    &&& forall|i: int| 0 <= i < lc ==> #[trigger] ws[1 + i] == written_all(c)[i]
    &&& forall|i: int| 0 <= i < lp ==> #[trigger] ws[1 + lc + i] == written_all(pf)[i]
    &&& forall|i: int| 0 <= i < lq ==> #[trigger] ws[1 + lc + lp + i] == written_all(qf)[i]
    &&& ws[ws.len() - 1] is End
}

/// The parameter filters of a supported-filter violation from the `r`-th
/// on, the other filters read: all of them.
#[verifier::spinoff_prover]
#[verifier::rlimit(80)]
proof fn lemma_sf_params(
    evs: Seq<XmlEvent>,
    ws: Seq<WView>,
    c: Seq<CompFilter>,
    pf: Seq<PropFilter>,
    qf: Seq<ParamFilter>,
    r: int,
)
    requires
        cal_reads_back_at(evs, 0, ws),
        evs[0] is Start,
        sf_layout(ws, c, pf, qf),
        supported_filter_law_ok(c, pf, qf),
        0 <= r <= qf.len(),
    ensures
        supported_filter_loop(
            evs,
            sf_at(after_written(1 + written_all(c).len() as int + written_all(pf).len() as int, qf, r)),
            views(c),
            views(pf),
            views(qf.take(r)),
        ) == (Ok::<_, ParsingError>((views(c), views(pf), views(qf))), sf_at(ws.len() - 1)),
    decreases qf.len() - r,
{
    let b: int = 1 + written_all(c).len() as int + written_all(pf).len() as int;
    let pr = after_written(b, qf, r);
    let st = sf_at(pr);
    reveal_strlit("comp-filter");
    reveal_strlit("prop-filter");
    reveal_strlit("param-filter");
    lemma_written_all_prefix(qf, r);
    assert(parent_has_child_spec(evs, st));
    assert(cal_event_reads_as(evs[0 + pr], ws[pr]));
    assert(state_ok(evs, st));
    assert(parents_ok(evs, seq![0int]));
    if r < qf.len() {
        lemma_item_events(evs, ws, b, qf, r);
        let ew = qf[r].qwrite_spec(Seq::empty());
        lemma_filters_open(arbitrary(), arbitrary(), qf[r]);
        assert(ws[pr + 0] == ew[0]);
        lemma_not_opened(evs, st, ws[pr], "param-filter"@, "comp-filter"@);
        lemma_not_opened(evs, st, ws[pr], "param-filter"@, "prop-filter"@);
        assert(declarations_only(Seq::empty()));
        lemma_param_filter_at(evs, st, qf[r], Seq::empty());
        assert(views(qf.take(r)).push(qf[r]@) =~= views(qf.take(r + 1)));
        lemma_sf_params(evs, ws, c, pf, qf, r + 1);
    } else {
        assert(qf.take(r) =~= qf);
        assert(pr == ws.len() - 1);
        lemma_not_opened(evs, st, ws[pr], seq![], "comp-filter"@);
        lemma_not_opened(evs, st, ws[pr], seq![], "prop-filter"@);
        lemma_not_opened(evs, st, ws[pr], seq![], "param-filter"@);
    }
}

/// The property filters of a supported-filter violation from the `k`-th
/// on, the component filters read: all the filters.
#[verifier::spinoff_prover]
#[verifier::rlimit(80)]
proof fn lemma_sf_props(
    evs: Seq<XmlEvent>,
    ws: Seq<WView>,
    c: Seq<CompFilter>,
    pf: Seq<PropFilter>,
    qf: Seq<ParamFilter>,
    k: int,
)
    requires
        cal_reads_back_at(evs, 0, ws),
        evs[0] is Start,
        sf_layout(ws, c, pf, qf),
        supported_filter_law_ok(c, pf, qf),
        0 <= k < pf.len(),
    ensures
        supported_filter_loop(
            evs,
            sf_at(after_written(1 + written_all(c).len() as int, pf, k)),
            views(c),
            views(pf.take(k)),
            Seq::empty(),
        ) == (Ok::<_, ParsingError>((views(c), views(pf), views(qf))), sf_at(ws.len() - 1)),
    decreases pf.len() - k,
{
    let b: int = 1 + written_all(c).len() as int;
    let bq: int = b + written_all(pf).len() as int;
    let pk = after_written(b, pf, k);
    let st = sf_at(pk);
    reveal_strlit("comp-filter");
    reveal_strlit("prop-filter");
    reveal_strlit("param-filter");
    lemma_written_all_prefix(pf, k);
    assert(parents_ok(evs, seq![0int]));
    assert(parent_has_child_spec(evs, st));
    lemma_item_events(evs, ws, b, pf, k);
    let ew = pf[k].qwrite_spec(Seq::empty());
    assert(cal_event_reads_as(evs[0 + pk], ws[pk]));
    assert(state_ok(evs, st));
    lemma_filters_open(arbitrary(), pf[k], arbitrary());
    assert(ws[pk + 0] == ew[0]);
    assert("prop-filter"@[0] != "comp-filter"@[0]);
    lemma_not_opened(evs, st, ws[pk], "prop-filter"@, "comp-filter"@);
    assert(declarations_only(Seq::empty()));
    lemma_prop_filter_at(evs, st, pf[k], Seq::empty());
    assert(views(pf.take(k)).push(pf[k]@) =~= views(pf.take(k + 1)));
    let p2 = after_written(b, pf, k + 1);
    let s2 = sf_at(p2);
    assert(cal_event_reads_as(evs[0 + p2], ws[p2]));
    assert(state_ok(evs, s2));
    assert(parent_has_child_spec(evs, s2));
    assert(qf.take(0) =~= Seq::<ParamFilter>::empty());
    assert(views(Seq::<ParamFilter>::empty()) =~= Seq::<ParamFilterView>::empty());
    if k + 1 < pf.len() {
        lemma_item_events(evs, ws, b, pf, k + 1);
        lemma_filters_open(arbitrary(), pf[k + 1], arbitrary());
        assert(ws[p2 + 0] == pf[k + 1].qwrite_spec(Seq::empty())[0]);
        lemma_not_opened(evs, s2, ws[p2], "prop-filter"@, "param-filter"@);
        lemma_sf_props(evs, ws, c, pf, qf, k + 1);
    } else {
        assert(pf.take(k + 1) =~= pf);
        assert(p2 == bq);
        assert(after_written(bq, qf, 0) == bq);
        if qf.len() > 0 {
            lemma_item_events(evs, ws, bq, qf, 0);
            lemma_param_filter_at(evs, s2, qf[0], Seq::empty());
            assert(Seq::<ParamFilterView>::empty().push(qf[0]@) =~= views(qf.take(1)));
            lemma_sf_params(evs, ws, c, pf, qf, 1);
        } else {
            assert(p2 == ws.len() - 1);
            lemma_not_opened(evs, s2, ws[p2], seq![], "param-filter"@);
            lemma_sf_params(evs, ws, c, pf, qf, 0);
        }
    }
}


/// What a supported-filter violation reads after its last component
/// filter, in the same step and the next ones: all the filters.
#[verifier::spinoff_prover]
#[verifier::rlimit(100)]
proof fn lemma_sf_rest(evs: Seq<XmlEvent>, ws: Seq<WView>, c: Seq<CompFilter>, pf: Seq<PropFilter>, qf: Seq<ParamFilter>)
    requires
        cal_reads_back_at(evs, 0, ws),
        evs[0] is Start,
        sf_layout(ws, c, pf, qf),
        supported_filter_law_ok(c, pf, qf),
        c.len() > 0,
    ensures
        ({
            let bp = 1 + written_all(c).len() as int;
            let (r2, s2, p1, d2) = maybe_push_spec::<PropFilter>(evs, sf_at(bp), Seq::empty(), true);
            let (r3, s3, q1, d3) = maybe_push_spec::<ParamFilter>(evs, s2, Seq::empty(), d2);
            &&& r2 is Ok
            &&& r3 is Ok
            &&& d3
            &&& bp <= s3.pos <= evs.len()
            &&& supported_filter_loop(evs, s3, views(c), p1, q1) == (
                Ok::<_, ParsingError>((views(c), views(pf), views(qf))),
                sf_at(ws.len() - 1),
            )
        }),
{
    let bp: int = 1 + written_all(c).len() as int;
    let bq: int = bp + written_all(pf).len() as int;
    let p2 = bp;
    let s2 = sf_at(p2);
    reveal_strlit("comp-filter");
    reveal_strlit("prop-filter");
    reveal_strlit("param-filter");
    assert(parents_ok(evs, seq![0int]));
    assert(cal_event_reads_as(evs[0 + p2], ws[p2]));
    assert(state_ok(evs, s2));
    assert(parent_has_child_spec(evs, s2));
    assert(declarations_only(Seq::empty()));
    assert(pf.take(0) =~= Seq::<PropFilter>::empty());
    assert(views(Seq::<PropFilter>::empty()) =~= Seq::<PropFilterView>::empty());
    assert(qf.take(0) =~= Seq::<ParamFilter>::empty());
    assert(views(Seq::<ParamFilter>::empty()) =~= Seq::<ParamFilterView>::empty());
    assert(after_written(bp, pf, 0) == bp);
    if pf.len() > 0 {
        lemma_item_events(evs, ws, bp, pf, 0);
        lemma_prop_filter_at(evs, s2, pf[0], Seq::empty());
        let p3 = after_written(bp, pf, 1);
        let s3 = sf_at(p3);
        assert(cal_event_reads_as(evs[0 + p3], ws[p3]));
        assert(state_ok(evs, s3));
        assert(parent_has_child_spec(evs, s3));
        assert(Seq::<PropFilterView>::empty().push(pf[0]@) =~= views(pf.take(1)));
        if pf.len() > 1 {
            lemma_item_events(evs, ws, bp, pf, 1);
            lemma_filters_open(arbitrary(), pf[1], arbitrary());
            assert(ws[p3 + 0] == pf[1].qwrite_spec(Seq::empty())[0]);
            lemma_not_opened(evs, s3, ws[p3], "prop-filter"@, "param-filter"@);
            lemma_sf_props(evs, ws, c, pf, qf, 1);
            assert(maybe_push_spec::<PropFilter>(evs, s2, Seq::empty(), true) == (Ok::<(), ParsingError>(()), s3, views(pf.take(1)), true));
            assert(maybe_push_spec::<ParamFilter>(evs, s3, Seq::empty(), true) == (Ok::<(), ParsingError>(()), s3, Seq::<ParamFilterView>::empty(), true));
        } else {
            assert(pf.take(1) =~= pf);
            assert(p3 == bq);
            assert(after_written(bq, qf, 0) == bq);
            if qf.len() > 0 {
                lemma_item_events(evs, ws, bq, qf, 0);
                lemma_param_filter_at(evs, s3, qf[0], Seq::empty());
                assert(Seq::<ParamFilterView>::empty().push(qf[0]@) =~= views(qf.take(1)));
                lemma_sf_params(evs, ws, c, pf, qf, 1);
                let s4 = sf_at(after_written(bq, qf, 1));
                assert(maybe_push_spec::<PropFilter>(evs, s2, Seq::empty(), true) == (Ok::<(), ParsingError>(()), s3, views(pf), true));
                assert(maybe_push_spec::<ParamFilter>(evs, s3, Seq::empty(), true) == (Ok::<(), ParsingError>(()), s4, views(qf.take(1)), true));
            } else {
                lemma_not_opened(evs, s3, ws[p3], seq![], "param-filter"@);
                lemma_sf_params(evs, ws, c, pf, qf, 0);
                assert(qf.take(0) =~= qf);
                assert(maybe_push_spec::<PropFilter>(evs, s2, Seq::empty(), true) == (Ok::<(), ParsingError>(()), s3, views(pf), true));
                assert(maybe_push_spec::<ParamFilter>(evs, s3, Seq::empty(), true) == (Ok::<(), ParsingError>(()), s3, Seq::<ParamFilterView>::empty(), true));
            }
        }
    } else {
        assert(bq == bp);
        assert(views(pf) =~= Seq::<PropFilterView>::empty());
        assert(pf.take(0) =~= pf);
        if qf.len() > 0 {
            lemma_item_events(evs, ws, bq, qf, 0);
            lemma_filters_open(arbitrary(), arbitrary(), qf[0]);
            assert(ws[p2 + 0] == qf[0].qwrite_spec(Seq::empty())[0]);
            lemma_not_opened(evs, s2, ws[p2], "param-filter"@, "prop-filter"@);
            lemma_param_filter_at(evs, s2, qf[0], Seq::empty());
            assert(Seq::<ParamFilterView>::empty().push(qf[0]@) =~= views(qf.take(1)));
            lemma_sf_params(evs, ws, c, pf, qf, 1);
            let s4 = sf_at(after_written(bq, qf, 1));
            assert(cal_prop_filter_spec(evs, s2) == (Err::<PropFilterView, ParsingError>(ParsingError::Recoverable), s2));
            assert(maybe_push_spec::<PropFilter>(evs, s2, Seq::empty(), true) == (Ok::<(), ParsingError>(()), s2, Seq::<PropFilterView>::empty(), true));
            assert(maybe_push_spec::<ParamFilter>(evs, s2, Seq::empty(), true) == (Ok::<(), ParsingError>(()), s4, views(qf.take(1)), true));
        } else {
            lemma_not_opened(evs, s2, ws[p2], seq![], "prop-filter"@);
            lemma_not_opened(evs, s2, ws[p2], seq![], "param-filter"@);
            lemma_sf_params(evs, ws, c, pf, qf, 0);
            assert(qf.take(0) =~= qf);
            assert(cal_prop_filter_spec(evs, s2) == (Err::<PropFilterView, ParsingError>(ParsingError::Recoverable), s2));
            assert(cal_param_filter_spec(evs, s2) == (Err::<ParamFilterView, ParsingError>(ParsingError::Recoverable), s2));
            assert(maybe_push_spec::<PropFilter>(evs, s2, Seq::empty(), true) == (Ok::<(), ParsingError>(()), s2, Seq::<PropFilterView>::empty(), true));
            assert(maybe_push_spec::<ParamFilter>(evs, s2, Seq::empty(), true) == (Ok::<(), ParsingError>(()), s2, Seq::<ParamFilterView>::empty(), true));
        }
    }
}

/// The component filters of a supported-filter violation from the `j`-th
/// on: all the filters.
#[verifier::spinoff_prover]
#[verifier::rlimit(100)]
proof fn lemma_sf_comps(
    evs: Seq<XmlEvent>,
    ws: Seq<WView>,
    c: Seq<CompFilter>,
    pf: Seq<PropFilter>,
    qf: Seq<ParamFilter>,
    j: int,
)
    requires
        cal_reads_back_at(evs, 0, ws),
        evs[0] is Start,
        sf_layout(ws, c, pf, qf),
        supported_filter_law_ok(c, pf, qf),
        0 <= j < c.len(),
    ensures
        supported_filter_loop(evs, sf_at(after_written(1, c, j)), views(c.take(j)), Seq::empty(), Seq::empty()) == (
            Ok::<_, ParsingError>((views(c), views(pf), views(qf))),
            sf_at(ws.len() - 1),
        ),
    decreases c.len() - j,
{
    let bp: int = 1 + written_all(c).len() as int;
    let bq: int = bp + written_all(pf).len() as int;
    let pj = after_written(1, c, j);
    let st = sf_at(pj);
    reveal_strlit("comp-filter");
    reveal_strlit("prop-filter");
    reveal_strlit("param-filter");
    lemma_written_all_prefix(c, j);
    assert(parents_ok(evs, seq![0int]));
    assert(parent_has_child_spec(evs, st));
    lemma_item_events(evs, ws, 1, c, j);
    assert(cal_event_reads_as(evs[0 + pj], ws[pj]));
    assert(state_ok(evs, st));
    assert(declarations_only(Seq::empty()));
    assert(c[j].qwrite_spec(Seq::empty()) == comp_filter_written(c[j], Seq::empty()));
    lemma_comp_filter_at(evs, st, c[j], Seq::empty());
    assert(views(c.take(j)).push(c[j]@) =~= views(c.take(j + 1)));
    let p2 = after_written(1, c, j + 1);
    let s2 = sf_at(p2);
    assert(cal_event_reads_as(evs[0 + p2], ws[p2]));
    assert(state_ok(evs, s2));
    assert(parent_has_child_spec(evs, s2));
    assert(pf.take(0) =~= Seq::<PropFilter>::empty());
    assert(views(Seq::<PropFilter>::empty()) =~= Seq::<PropFilterView>::empty());
    assert(qf.take(0) =~= Seq::<ParamFilter>::empty());
    assert(views(Seq::<ParamFilter>::empty()) =~= Seq::<ParamFilterView>::empty());
    if j + 1 < c.len() {
        lemma_item_events(evs, ws, 1, c, j + 1);
        lemma_filters_open(c[j + 1], arbitrary(), arbitrary());
        assert(ws[p2 + 0] == c[j + 1].qwrite_spec(Seq::empty())[0]);
        assert("prop-filter"@[0] != "comp-filter"@[0]);
        lemma_not_opened(evs, s2, ws[p2], "comp-filter"@, "prop-filter"@);
        lemma_not_opened(evs, s2, ws[p2], "comp-filter"@, "param-filter"@);
        lemma_sf_comps(evs, ws, c, pf, qf, j + 1);
    } else {
        assert(c.take(j + 1) =~= c);
        assert(p2 == bp);
        lemma_sf_rest(evs, ws, c, pf, qf);
    }
}


/// A written supported-filter condition reads back with the same
/// component, property and parameter filters, in order, but for what the
/// laws of those filters leave out.
#[verifier::spinoff_prover]
#[verifier::rlimit(100)]
pub proof fn law_cal_supported_filter_roundtrip(v: CalViolation, ns: Seq<(Seq<char>, Seq<char>)>, evs: Seq<XmlEvent>)
    requires
        cal_reads_back(evs, v.qwrite_spec(ns)),
        v matches CalViolation::SupportedFilter { comp, prop, param } && supported_filter_law_ok(comp@, prop@, param@),
    ensures
        <CalViolation as QRead>::qread_spec(evs, start_state()).0 == Ok::<_, ParsingError>(v@),
{
    let (c, pf, qf) = match v {
        CalViolation::SupportedFilter { comp, prop, param } => (comp@, prop@, param@),
        _ => arbitrary(),
    };
    let x = "supported-filter"@;
    let q = cal_q(x);
    let w = written_all(c) + written_all(pf) + written_all(qf);
    let ws = v.qwrite_spec(ns);
    assert(ws == around(q, ns, w));
    lemma_reads_back_at_start(evs, ws);
    let lc = written_all(c).len() as int;
    let lp = written_all(pf).len() as int;
    let lq = written_all(qf).len() as int;
    assert(ws.len() == 1 + lc + lp + lq + 1);
    assert forall|i: int| 0 <= i < lc implies #[trigger] ws[1 + i] == written_all(c)[i] by {}
    assert forall|i: int| 0 <= i < lp implies #[trigger] ws[1 + lc + i] == written_all(pf)[i] by {
        assert(ws[1 + (lc + i)] == w[lc + i]);
    }
    assert forall|i: int| 0 <= i < lq implies #[trigger] ws[1 + lc + lp + i] == written_all(qf)[i] by {
        assert(ws[1 + (lc + lp + i)] == w[lc + lp + i]);
    }
    assert(sf_layout(ws, c, pf, qf));
    assert(cal_event_reads_as(evs[0], ws[0]));
    reveal_strlit("supported-filter");
    reveal_strlit("calendar-collection-location-ok");
    reveal_strlit("valid-calendar-data");
    reveal_strlit("initialize-calendar-collection");
    reveal_strlit("supported-calendar-data");
    reveal_strlit("valid-calendar-object-resource");
    reveal_strlit("supported-calendar-component");
    reveal_strlit("no-uid-conflict");
    reveal_strlit("max-resource-size");
    reveal_strlit("min-date-time");
    reveal_strlit("max-date-time");
    reveal_strlit("max-instances");
    reveal_strlit("max-attendees-per-instance");
    reveal_strlit("valid-filter");
    lemma_cal_dav_differ();
    assert(q.skip(2) =~= x);
    assert(q[0] == 'C' && q[1] == ':');
    assert(is_tag_spec(evs[0], CAL_URN@, x));
    let d = cal_violation_dav_names();
    let b = cal_violation_names_before();
    let a = cal_violation_names_after();
    let st = start_state();
    lemma_atoms_miss(evs, st, DAV_URN@, d, 0);
    assert forall|k: int| 0 <= k < b.len() implies !is_tag_spec(evs[0], CAL_URN@, #[trigger] b[k]) by {
        assert(b[k].len() != x.len());
    }
    lemma_atoms_miss(evs, st, CAL_URN@, b, 0);
    assert(!is_tag_spec(evs[0], CAL_URN@, "no-uid-conflict"@)) by {
        assert("no-uid-conflict"@.len() != x.len());
    }
    assert forall|k: int| 0 <= k < a.len() implies !is_tag_spec(evs[0], CAL_URN@, #[trigger] a[k]) by {
        assert(a[k].len() != x.len());
    }
    lemma_atoms_miss(evs, st, CAL_URN@, a, 0);
    assert(Seq::<int>::empty().push(0) == seq![0int]);
    let s4 = sf_at(1);
    assert(open_spec(evs, st, CAL_URN@, x) == (Ok::<int, ParsingError>(0), s4));
    assert(c.take(0) =~= Seq::<CompFilter>::empty());
    assert(pf.take(0) =~= Seq::<PropFilter>::empty());
    assert(qf.take(0) =~= Seq::<ParamFilter>::empty());
    assert(views(Seq::<CompFilter>::empty()) =~= Seq::<CompFilterView>::empty());
    assert(views(Seq::<PropFilter>::empty()) =~= Seq::<PropFilterView>::empty());
    assert(views(Seq::<ParamFilter>::empty()) =~= Seq::<ParamFilterView>::empty());
    assert(after_written(1, c, 0) == 1);
    if c.len() > 0 {
        lemma_sf_comps(evs, ws, c, pf, qf, 0);
    } else {
        assert(views(c) =~= Seq::<CompFilterView>::empty());
        assert(lc == 0);
        assert(after_written(1, pf, 0) == 1);
        if pf.len() > 0 {
            lemma_sf_props(evs, ws, c, pf, qf, 0);
        } else {
            assert(views(pf) =~= Seq::<PropFilterView>::empty());
            assert(after_written(1, qf, 0) == 1);
            lemma_sf_params(evs, ws, c, pf, qf, 0);
        }
    }
    let e = sf_at(ws.len() - 1);
    assert(cal_event_reads_as(evs[0 + (ws.len() - 1)], ws[ws.len() - 1]));
    assert(seq![0int].drop_last() == Seq::<int>::empty());
    assert(close_spec(evs, e) == next_spec(evs, pop_parent(e)));
}


/// Reading a property to return written at the current event: the
/// property, and the cursor after it.
#[verifier::rlimit(40)]
proof fn lemma_cal_prop_at(evs: Seq<XmlEvent>, st: RState, v: CalProp)
    requires
        state_ok(evs, st),
        cal_reads_back_at(evs, st.pos, v.qwrite_spec(Seq::empty())),
    ensures
        cal_prop_spec(evs, st) == (
            Ok::<_, ParsingError>(v@),
            RState { pos: st.pos + 1, prev: Some(st.pos), parents: st.parents },
        ),
{
    let p = st.pos;
    let na = novalue_attr(v.novalue);
    let a = Seq::<(Seq<char>, Seq<char>)>::empty() + name_attr(v.name.0@) + na;
    let q = cal_q("prop"@);
    let ws = v.qwrite_spec(Seq::empty());
    assert(ws == cal_atom("prop"@, a));
    assert(q.skip(2) =~= "prop"@);
    assert(q[0] == 'C' && q[1] == ':');
    assert(cal_event_reads_as(evs[p + 0], ws[0]));
    let t = match evs[p] {
        XmlEvent::Empty(t) => t,
        _ => arbitrary(),
    };
    reveal_strlit("name");
    reveal_strlit("novalue");
    reveal_strlit("yes");
    reveal_strlit("no");
    lemma_attr_read(t.attrs@, a, "name"@);
    lemma_attr_read(t.attrs@, a, "novalue"@);
    assert(a[0].0 == "name"@);
    assert(written_attr(a, "name"@) == Some(v.name.0@));
    assert("name"@.len() != "novalue"@.len());
    assert(a.drop_first() =~= na);
    assert(written_attr(a, "novalue"@) == written_attr(na, "novalue"@));
    let pp = st.parents.push(p);
    assert(pp.drop_last() =~= st.parents);
    let s1 = RState { pos: p, prev: Some(p), parents: pp };
    assert(open_spec(evs, st, CAL_URN@, "prop"@) == (Ok::<int, ParsingError>(p), s1));
    assert(!parent_has_child_spec(evs, s1));
    assert("no"@.len() != "yes"@.len());
    match v.novalue {
        Some(true) => assert(prev_attr_spec(evs, s1, "novalue"@) == Some("yes"@)),
        Some(false) => assert(prev_attr_spec(evs, s1, "novalue"@) == Some("no"@)),
        None => assert(prev_attr_spec(evs, s1, "novalue"@) == None::<Seq<char>>),
    }
}

/// Reading the properties to return of an element opened at `o`, from
/// the `k`-th on: all of them.
#[verifier::rlimit(60)]
proof fn lemma_cal_props_tail(
    evs: Seq<XmlEvent>,
    ws: Seq<WView>,
    o: int,
    ps: Seq<int>,
    base: int,
    props: Seq<CalProp>,
    k: int,
)
    requires
        cal_reads_back_at(evs, o, ws),
        parents_ok(evs, ps),
        ps.len() > 0 && ps.last() == o,
        evs[o] is Start,
        1 <= base,
        base + written_all(props).len() < ws.len(),
        forall|i: int| 0 <= i < written_all(props).len() ==> #[trigger] ws[base + i] == written_all(props)[i],
        ws[base + written_all(props).len()] is End || opens(ws[base + written_all(props).len()], cal_q("comp"@))
            || opens(ws[base + written_all(props).len()], cal_q("allcomp"@)),
        props.len() > 0,
        0 <= k <= props.len(),
    ensures
        cal_prop_kind_loop(evs, at_in(o + after_written(base, props, k), ps), views(props.take(k))) == (
            Ok::<_, ParsingError>(PropKindView::Prop(views(props))),
            at_in(o + after_written(base, props, props.len() as int), ps),
        ),
    decreases props.len() - k,
{
    let lk = written_all(props.take(k)).len() as int;
    let pk = o + base + lk;
    let st = at_in(pk, ps);
    reveal_strlit("prop");
    reveal_strlit("allprop");
    reveal_strlit("comp");
    reveal_strlit("allcomp");
    lemma_written_all_prefix(props, k);
    assert(parent_has_child_spec(evs, st));
    assert(cal_event_reads_as(evs[o + (base + lk)], ws[base + lk]));
    assert(state_ok(evs, st));
    if k < props.len() {
        let e = props[k];
        let ew = e.qwrite_spec(Seq::empty());
        lemma_written_all_prefix(props, k + 1);
        assert(props.take(k + 1).drop_last() =~= props.take(k));
        assert(props.take(k + 1).last() == e);
        assert(written_all(props.take(k + 1)) == written_all(props.take(k)) + ew);
        assert(ew.len() == 1);
        assert(written_all(props.take(k + 1))[lk] == ew[0]);
        assert(ws[base + lk] == written_all(props)[lk]);
        assert(cal_event_reads_as(evs[pk + 0], ew[0]));
        assert(cal_event_reads_as(evs[o + (base + lk + 1)], ws[base + lk + 1]));
        lemma_cal_prop_at(evs, st, e);
        let q = cal_q("prop"@);
        assert(q.skip(2) =~= "prop"@);
        assert(q[0] == 'C' && q[1] == ':');
        assert(!is_tag_spec(evs[pk], CAL_URN@, "allprop"@));
        assert(after_written(base, props, k + 1) == base + lk + 1);
        assert(views(props.take(k)).push(e@) =~= views(props.take(k + 1)));
        lemma_cal_props_tail(evs, ws, o, ps, base, props, k + 1);
    } else {
        assert(props.take(k) =~= props);
        let w = ws[base + written_all(props).len()];
        assert(cal_event_reads_as(evs[pk], w));
        if !(w is End) {
            let qc = cal_q("comp"@);
            let qa = cal_q("allcomp"@);
            assert(qc.skip(2) =~= "comp"@);
            assert(qa.skip(2) =~= "allcomp"@);
            assert(qc[0] == 'C' && qc[1] == ':' && qa[0] == 'C' && qa[1] == ':');
            assert("comp"@[0] != "prop"@[0]);
            assert("allcomp"@[3] != "allprop"@[3]);
        }
        assert(open_spec(evs, st, CAL_URN@, "allprop"@) == (Err::<int, ParsingError>(ParsingError::Recoverable), st));
        assert(cal_prop_spec(evs, st) == (Err::<CalPropView, ParsingError>(ParsingError::Recoverable), st));
        assert(views(props).len() > 0);
    }
}

/// The events of the first `j` selections of a list begin the events of
/// the whole list.
proof fn lemma_comps_prefix(s: Seq<Comp>, j: int)
    requires
        0 <= j <= s.len(),
    ensures
        comps_written(s.take(j)).len() <= comps_written(s).len(),
        forall|i: int| 0 <= i < comps_written(s.take(j)).len() ==> #[trigger] comps_written(s)[i] == comps_written(s.take(j))[i],
    decreases s.len() - j,
{
    if j < s.len() {
        lemma_comps_prefix(s, j + 1);
        assert(s.take(j + 1).drop_last() =~= s.take(j));
        assert(comps_written(s.take(j + 1)) == comps_written(s.take(j)) + comp_written(s.take(j + 1).last(), Seq::empty()));
    } else {
        assert(s.take(j) =~= s);
    }
}

/// What the law on component selections leaves out, at every depth: empty
/// lists of properties or sub-components (written as nothing, read as no
/// selection) and misnamed component types.
pub open spec fn comp_law_ok(c: Comp) -> bool
    decreases c,
{
    &&& !(c.name matches Component::Unknown(s) && known_component_name(s@))
    &&& !(c.prop_kind matches Some(PropKind::Prop(v)) && v@.len() == 0)
    &&& comp_kind_law_ok(c.comp_kind)
}

/// `comp_law_ok` for a sub-component selection.
pub open spec fn comp_kind_law_ok(k: Option<CompKind>) -> bool
    decreases k,
{
    match k {
        Some(CompKind::Comp(v)) => v@.len() > 0 && comps_law_ok(v@),
        _ => true,
    }
}

/// `comp_law_ok` for each of a list of component selections.
pub open spec fn comps_law_ok(s: Seq<Comp>) -> bool
    decreases s,
{
    if s.len() == 0 {
        true
    } else {
        comps_law_ok(s.drop_last()) && comp_law_ok(s.last())
    }
}

/// Each selection of a list that keeps to the law keeps to it.
proof fn lemma_comps_law_ok_at(s: Seq<Comp>, k: int)
    requires
        comps_law_ok(s),
        0 <= k < s.len(),
    ensures
        comp_law_ok(s[k]),
    decreases s.len(),
{
    if k < s.len() - 1 {
        assert(s.drop_last()[k] == s[k]);
        lemma_comps_law_ok_at(s.drop_last(), k);
    }
}

/// Reading the sub-component selections of a selection opened at `o`,
/// from the `j`-th on: all of them.
#[verifier::spinoff_prover]
#[verifier::rlimit(80)]
proof fn lemma_comps_tail(
    evs: Seq<XmlEvent>,
    ws: Seq<WView>,
    o: int,
    ps: Seq<int>,
    c: Comp,
    v: Vec<Comp>,
    base: int,
    j: int,
)
    requires
        c.comp_kind == Some(CompKind::Comp(v)),
        comp_law_ok(c),
        cal_reads_back_at(evs, o, ws),
        parents_ok(evs, ps),
        ps.len() > 0 && ps.last() == o,
        evs[o] is Start,
        1 <= base,
        ws.len() == base + comps_written(v@).len() + 1,
        forall|i: int| 0 <= i < comps_written(v@).len() ==> #[trigger] ws[base + i] == comps_written(v@)[i],
        ws[ws.len() - 1] is End,
        0 <= j <= v@.len(),
    ensures
        comp_kind_loop(evs, at_in(o + base + comps_written(v@.take(j)).len(), ps), comps_view(v@.take(j))) == (
            Ok::<_, ParsingError>(CompKindView::Comp(comps_view(v@))),
            at_in(o + ws.len() - 1, ps),
        ),
    decreases c, 0int, v@.len() - j,
{
    let cs = v@;
    let lj = comps_written(cs.take(j)).len() as int;
    let pj = o + base + lj;
    let st = at_in(pj, ps);
    reveal_strlit("comp");
    reveal_strlit("allcomp");
    lemma_comps_prefix(cs, j);
    lemma_comps_prefix(cs, cs.len() as int);
    assert(cs.take(cs.len() as int) =~= cs);
    assert(parent_has_child_spec(evs, st));
    assert(cal_event_reads_as(evs[o + (base + lj)], ws[base + lj]));
    assert(state_ok(evs, st));
    if j < cs.len() {
        let e = cs[j];
        let ew = comp_written(e, Seq::empty());
        lemma_comps_prefix(cs, j + 1);
        assert(cs.take(j + 1).drop_last() =~= cs.take(j));
        assert(cs.take(j + 1).last() == e);
        assert(comps_written(cs.take(j + 1)) == comps_written(cs.take(j)) + ew);
        assert forall|i: int| 0 <= i < ew.len() implies cal_event_reads_as(#[trigger] evs[st.pos + i], ew[i]) by {
            assert(comps_written(cs.take(j + 1))[lj + i] == ew[i]);
            assert(ws[base + (lj + i)] == comps_written(cs)[lj + i]);
            assert(cal_event_reads_as(evs[o + (base + (lj + i))], ws[base + (lj + i)]));
        }
        assert(cal_event_reads_as(evs[o + (base + lj + ew.len())], ws[base + lj + ew.len()]));
        assert(declarations_only(Seq::empty()));
        lemma_comp_decreases(c, v, j);
        lemma_comps_law_ok_at(cs, j);
        lemma_comp_at(evs, st, e, Seq::empty());
        let q = cal_q("comp"@);
        assert(q.skip(2) =~= "comp"@);
        assert(q[0] == 'C' && q[1] == ':');
        assert(cal_event_reads_as(evs[st.pos + 0], ew[0]));
        assert(!is_tag_spec(evs[pj], CAL_URN@, "allcomp"@));
        assert(open_spec(evs, st, CAL_URN@, "allcomp"@) == (Err::<int, ParsingError>(ParsingError::Recoverable), st));
        assert(comps_view(cs.take(j)).push(e@) =~= comps_view(cs.take(j + 1)));
        lemma_comps_tail(evs, ws, o, ps, c, v, base, j + 1);
    } else {
        assert(cs.take(j) =~= cs);
        assert(pj == o + ws.len() - 1);
        assert(evs[pj] is End);
        lemma_comps_view(cs);
        assert(open_spec(evs, st, CAL_URN@, "allcomp"@) == (Err::<int, ParsingError>(ParsingError::Recoverable), st));
        assert(comp_spec(evs, st) == (Err::<CompView, ParsingError>(ParsingError::Recoverable), st));
    }
}

/// Reading a component selection written at the current event, with the
/// namespace declarations `ns`: the selection, and the cursor after it.
#[verifier::spinoff_prover]
#[verifier::rlimit(100)]
proof fn lemma_comp_at(evs: Seq<XmlEvent>, st: RState, c: Comp, ns: Seq<(Seq<char>, Seq<char>)>)
    requires
        state_ok(evs, st),
        cal_reads_back_at(evs, st.pos, comp_written(c, ns)),
        declarations_only(ns),
        comp_law_ok(c),
    ensures
        comp_spec(evs, st) == (
            Ok::<_, ParsingError>(comp_view(c)),
            RState {
                pos: st.pos + comp_written(c, ns).len(),
                prev: Some(st.pos + comp_written(c, ns).len() - 1),
                parents: st.parents,
            },
        ),
    decreases c, 1int, 0int,
{
    let p = st.pos;
    let a = ns + name_attr(component_name(c.name));
    let q = cal_q("comp"@);
    let ws = comp_written(c, ns);
    assert(q.skip(2) =~= "comp"@);
    assert(q[0] == 'C' && q[1] == ':');
    assert(cal_event_reads_as(evs[p + 0], ws[0]));
    let t = match evs[p] {
        XmlEvent::Start(t) => t,
        XmlEvent::Empty(t) => t,
        _ => arbitrary(),
    };
    reveal_strlit("xmlns");
    reveal_strlit("name");
    reveal_strlit("prop");
    reveal_strlit("allprop");
    reveal_strlit("comp");
    reveal_strlit("allcomp");
    lemma_attr_read(t.attrs@, a, "name"@);
    assert("name"@[0] != "xmlns"@[0]);
    lemma_attr_after_declarations(ns, name_attr(component_name(c.name)), "name"@);
    assert(written_attr(name_attr(component_name(c.name)), "name"@) == Some(component_name(c.name)));
    lemma_component_reads_back(c.name);
    let pp = st.parents.push(p);
    assert(pp.drop_last() =~= st.parents);
    assert(parents_ok(evs, pp));
    if c.prop_kind is None && c.comp_kind is None {
        assert(ws == cal_atom("comp"@, a));
        let s1 = RState { pos: p, prev: Some(p), parents: pp };
        assert(open_spec(evs, st, CAL_URN@, "comp"@) == (Ok::<int, ParsingError>(p), s1));
        assert(prev_attr_spec(evs, s1, "name"@) == Some(component_name(c.name)));
        assert(!parent_has_child_spec(evs, s1));
    } else {
        let pw = prop_kind_written(c.prop_kind);
        let kw = comp_kind_written(c.comp_kind);
        assert(ws == around(q, a, pw + kw));
        let s1 = at_in(p + 1, pp);
        assert(open_spec(evs, st, CAL_URN@, "comp"@) == (Ok::<int, ParsingError>(p), s1));
        assert(prev_attr_spec(evs, s1, "name"@) == Some(component_name(c.name)));
        assert(parent_has_child_spec(evs, s1));
        assert(evs[p] is Start);
        let lpw = pw.len() as int;
        let lkw = kw.len() as int;
        assert(ws.len() == 2 + lpw + lkw);
        assert forall|i: int| 0 <= i < lpw implies #[trigger] ws[1 + i] == pw[i] by {
            assert(ws[1 + i] == (pw + kw)[i]);
        }
        assert forall|i: int| 0 <= i < lkw implies #[trigger] ws[1 + lpw + i] == kw[i] by {
            assert(ws[1 + (lpw + i)] == (pw + kw)[lpw + i]);
        }
        let e = ws.len() - 1;
        assert(ws[e] == WView::End(q));
        let sk = at_in(p + 1 + lpw, pp);
        // The properties to return.
        let pkv = match c.prop_kind {
            Some(x) => Some(x@),
            None => None,
        };
        assert(cal_event_reads_as(evs[p + (1 + lpw)], ws[1 + lpw]));
        assert(state_ok(evs, sk));
        assert(parent_has_child_spec(evs, sk));
        let w = ws[1 + lpw];
        let qc = cal_q("comp"@);
        let qac = cal_q("allcomp"@);
        assert(qc.skip(2) =~= "comp"@);
        assert(qac.skip(2) =~= "allcomp"@);
        assert(qc[0] == 'C' && qc[1] == ':' && qac[0] == 'C' && qac[1] == ':');
        match c.comp_kind {
            None => {
                assert(lkw == 0);
                assert(w is End);
            },
            Some(CompKind::AllComp) => {
                assert(w == kw[0]);
                assert(opens(w, qac));
            },
            Some(CompKind::Comp(cv)) => {
                assert(cv@.len() > 0);
                lemma_comps_prefix(cv@, 1);
                assert(cv@.take(1).drop_last() =~= Seq::<Comp>::empty());
                assert(cv@.take(1).last() == cv@[0]);
                assert(comps_written(cv@.take(1)) == comps_written(Seq::<Comp>::empty()) + comp_written(cv@[0], Seq::empty()));
                assert(comps_written(cv@.take(1)) =~= comp_written(cv@[0], Seq::empty()));
                assert(w == kw[0]);
                assert(kw == comps_written(cv@));
                assert(w == comps_written(cv@.take(1))[0]);
                assert(opens(w, qc));
            },
        }
        match c.prop_kind {
            None => {
                assert(lpw == 0);
                assert(cal_event_reads_as(evs[p + 1], w));
                assert("comp"@[0] != "prop"@[0]);
                assert("allcomp"@[3] != "allprop"@[3]);
                assert(open_spec(evs, s1, CAL_URN@, "allprop"@) == (Err::<int, ParsingError>(ParsingError::Recoverable), s1));
                assert(open_spec(evs, s1, CAL_URN@, "prop"@) == (Err::<int, ParsingError>(ParsingError::Recoverable), s1));
                assert(cal_prop_spec(evs, s1) == (Err::<CalPropView, ParsingError>(ParsingError::Recoverable), s1));
                assert(cal_prop_kind_loop(evs, s1, Seq::empty()) == (Err::<PropKindView, ParsingError>(ParsingError::Recoverable), s1));
            },
            Some(PropKind::AllProp) => {
                let qa = cal_q("allprop"@);
                assert(qa.skip(2) =~= "allprop"@);
                assert(qa[0] == 'C' && qa[1] == ':');
                assert(cal_event_reads_as(evs[p + 1], ws[1]));
                let ppp = pp.push(p + 1);
                let si = RState { pos: p + 1, prev: Some(p + 1), parents: ppp };
                assert(open_spec(evs, s1, CAL_URN@, "allprop"@) == (Ok::<int, ParsingError>(p + 1), si));
                assert(!parent_has_child_spec(evs, si));
                assert(ppp.drop_last() =~= pp);
                assert(cal_prop_kind_loop(evs, s1, Seq::empty()) == (Ok::<_, ParsingError>(PropKindView::AllProp), sk));
            },
            Some(PropKind::Prop(v)) => {
                assert(v@.take(0) =~= Seq::<CalProp>::empty());
                assert(views(Seq::<CalProp>::empty()) =~= Seq::<CalPropView>::empty());
                assert(after_written(1, v@, 0) == 1);
                assert(pw == written_all(v@));
                assert forall|i: int| 0 <= i < written_all(v@).len() implies #[trigger] ws[1 + i] == written_all(v@)[i] by {
                    assert(ws[1 + i] == pw[i]);
                }
                lemma_cal_props_tail(evs, ws, p, pp, 1, v@, 0);
                assert(v@.take(v@.len() as int) =~= v@);
                assert(after_written(1, v@, v@.len() as int) == 1 + lpw);
                assert(cal_prop_kind_loop(evs, s1, Seq::empty()) == (Ok::<_, ParsingError>(PropKindView::Prop(views(v@))), sk));
            },
        }
        let pk_read = maybe_read_spec::<PropKind>(evs, s1, None, false);
        assert(pk_read.0 is Ok && pk_read.1 == sk && pk_read.2 == pkv && pk_read.3 == (pkv is Some));
        // The sub-component selections.
        let ckv = comp_kind_view(c.comp_kind);
        let sz = at_in(p + e, pp);
        assert(cal_event_reads_as(evs[p + e], ws[e]));
        match c.comp_kind {
            None => {
                assert(lkw == 0);
                assert(open_spec(evs, sk, CAL_URN@, "allcomp"@) == (Err::<int, ParsingError>(ParsingError::Recoverable), sk));
                assert(comp_spec(evs, sk) == (Err::<CompView, ParsingError>(ParsingError::Recoverable), sk));
                assert(comp_kind_loop(evs, sk, Seq::empty()).0 == Err::<CompKindView, ParsingError>(ParsingError::Recoverable));
            },
            Some(CompKind::AllComp) => {
                let qa = cal_q("allcomp"@);
                assert(qa.skip(2) =~= "allcomp"@);
                assert(qa[0] == 'C' && qa[1] == ':');
                let ppp = pp.push(p + 1 + lpw);
                let si = RState { pos: p + 1 + lpw, prev: Some(p + 1 + lpw), parents: ppp };
                assert(open_spec(evs, sk, CAL_URN@, "allcomp"@) == (Ok::<int, ParsingError>(p + 1 + lpw), si));
                assert(!parent_has_child_spec(evs, si));
                assert(ppp.drop_last() =~= pp);
                assert(comp_kind_loop(evs, sk, Seq::empty()) == (Ok::<_, ParsingError>(CompKindView::AllComp), sz));
            },
            Some(CompKind::Comp(cv)) => {
                assert(kw == comps_written(cv@));
                assert forall|i: int| 0 <= i < comps_written(cv@).len() implies #[trigger] ws[(1 + lpw) + i] == comps_written(cv@)[i] by {
                    assert(ws[1 + lpw + i] == kw[i]);
                }
                assert(cv@.take(0) =~= Seq::<Comp>::empty());
                assert(comps_view(Seq::<Comp>::empty()) =~= Seq::<CompView>::empty());
                lemma_comps_tail(evs, ws, p, pp, c, cv, 1 + lpw, 0);
            },
        }
        // The second step meets the closing tag.
        if pkv is Some || ckv is Some {
            assert(open_spec(evs, sz, CAL_URN@, "allprop"@) == (Err::<int, ParsingError>(ParsingError::Recoverable), sz));
            assert(cal_prop_spec(evs, sz) == (Err::<CalPropView, ParsingError>(ParsingError::Recoverable), sz));
            assert(cal_prop_kind_loop(evs, sz, Seq::empty()).0 == Err::<PropKindView, ParsingError>(ParsingError::Recoverable));
            assert(open_spec(evs, sz, CAL_URN@, "allcomp"@) == (Err::<int, ParsingError>(ParsingError::Recoverable), sz));
            assert(comp_spec(evs, sz) == (Err::<CompView, ParsingError>(ParsingError::Recoverable), sz));
            assert(comp_kind_loop(evs, sz, Seq::empty()).0 == Err::<CompKindView, ParsingError>(ParsingError::Recoverable));
            assert(comp_loop(evs, sz, pkv, ckv) == (Ok::<_, ParsingError>((pkv, ckv)), sz));
        }
        assert(comp_loop(evs, s1, None, None) == (Ok::<_, ParsingError>((pkv, ckv)), sz));
        assert(close_spec(evs, sz) == next_spec(evs, pop_parent(sz)));
    }
}

/// A written component selection reads back as the same selection, at
/// every depth, but for what `comp_law_ok` leaves out.
pub proof fn law_cal_comp_roundtrip(v: Comp, ns: Seq<(Seq<char>, Seq<char>)>, evs: Seq<XmlEvent>)
    requires
        cal_reads_back(evs, v.qwrite_spec(ns)),
        declarations_only(ns),
        comp_law_ok(v),
    ensures
        <Comp as QRead>::qread_spec(evs, start_state()).0 == Ok::<_, ParsingError>(v@),
{
    lemma_reads_back_at_start(evs, v.qwrite_spec(ns));
    lemma_comp_at(evs, start_state(), v, ns);
}


/// A written calendar-data request reads back as the same request, but
/// for a recurrence modifier or a free-busy limit (their dates go through
/// the outside date-time parser) and what `comp_law_ok` leaves out.
#[verifier::spinoff_prover]
#[verifier::rlimit(60)]
pub proof fn law_cal_data_request_roundtrip(v: CalendarDataRequest, ns: Seq<(Seq<char>, Seq<char>)>, evs: Seq<XmlEvent>)
    requires
        cal_reads_back(evs, v.qwrite_spec(ns)),
        declarations_only(ns),
        v.recurrence is None,
        v.limit_freebusy_set is None,
        v.comp matches Some(c) ==> comp_law_ok(c),
    ensures
        <CalendarDataRequest as QRead>::qread_spec(evs, start_state()).0 == Ok::<_, ParsingError>(v@),
{
    let a = ns + mime_attr(v.mime);
    let q = cal_q("calendar-data"@);
    let cw = opt_written(v.comp);
    let ws = v.qwrite_spec(ns);
    assert(opt_written(v.recurrence) =~= Seq::<WView>::empty());
    assert(opt_written(v.limit_freebusy_set) =~= Seq::<WView>::empty());
    assert(ws =~= around(q, a, cw));
    lemma_reads_back_at_start(evs, ws);
    assert(q.skip(2) =~= "calendar-data"@);
    assert(q[0] == 'C' && q[1] == ':');
    assert(cal_event_reads_as(evs[0], ws[0]));
    let st = start_state();
    assert(Seq::<int>::empty().push(0) == seq![0int]);
    let s1 = at_in(1, seq![0int]);
    assert(open_spec(evs, st, CAL_URN@, "calendar-data"@) == (Ok::<int, ParsingError>(0), s1));
    assert(parent_has_child_spec(evs, s1));
    assert(parents_ok(evs, seq![0int]));
    let n = cw.len() as int;
    assert(ws.len() == n + 2);
    let e = sf_at(1 + n);
    assert(cal_event_reads_as(evs[0 + (1 + n)], ws[1 + n]));
    assert(evs[1 + n] is End);
    assert(state_ok(evs, e));
    assert(open_spec(evs, e, CAL_URN@, "comp"@) == (Err::<int, ParsingError>(ParsingError::Recoverable), e));
    assert(open_spec(evs, e, CAL_URN@, "expand"@) == (Err::<int, ParsingError>(ParsingError::Recoverable), e));
    assert(open_spec(evs, e, CAL_URN@, "limit-recurrence-set"@) == (Err::<int, ParsingError>(ParsingError::Recoverable), e));
    assert(open_spec(evs, e, CAL_URN@, "limit-freebusy-set"@) == (Err::<int, ParsingError>(ParsingError::Recoverable), e));
    assert(comp_spec(evs, e) == (Err::<CompView, ParsingError>(ParsingError::Recoverable), e));
    let cv = match v.comp {
        Some(c) => Some(c@),
        None => None,
    };
    assert(data_request_loop(evs, e, cv, None, None) == (Ok::<_, ParsingError>((cv, None::<RecurrenceModifier>, None::<(UtcTime, UtcTime)>)), e));
    match v.comp {
        Some(c) => {
            assert(cw == comp_written(c, Seq::empty()));
            assert(state_ok(evs, s1)) by {
                assert(cal_event_reads_as(evs[0int + 1], ws[1]));
            }
            assert forall|i: int| 0 <= i < n implies cal_event_reads_as(#[trigger] evs[s1.pos + i], cw[i]) by {
                assert(ws[1 + i] == cw[i]);
                assert(cal_event_reads_as(evs[0 + (1 + i)], ws[1 + i]));
            }
            assert(declarations_only(Seq::empty()));
            lemma_comp_at(evs, s1, c, Seq::empty());
            assert(data_request_loop(evs, s1, None, None, None) == (Ok::<_, ParsingError>((cv, None::<RecurrenceModifier>, None::<(UtcTime, UtcTime)>)), e));
        },
        None => {
            assert(n == 0);
        },
    }
    assert(seq![0int].drop_last() == Seq::<int>::empty());
    assert(close_spec(evs, e) == next_spec(evs, pop_parent(e)));
    let t = match evs[0] {
        XmlEvent::Start(t) => t,
        _ => arbitrary(),
    };
    reveal_strlit("xmlns");
    reveal_strlit("content-type");
    reveal_strlit("version");
    lemma_attr_read(t.attrs@, a, "content-type"@);
    lemma_attr_read(t.attrs@, a, "version"@);
    assert("content-type"@[0] != "xmlns"@[0]);
    assert("version"@[0] != "xmlns"@[0]);
    lemma_attr_after_declarations(ns, mime_attr(v.mime), "content-type"@);
    lemma_attr_after_declarations(ns, mime_attr(v.mime), "version"@);
    let m = mime_attr(v.mime);
    assert("content-type"@.len() != "version"@.len());
    match v.mime {
        Some(x) => {
            assert(m[1].0 == "version"@ && m[0].0 != "version"@);
            assert(m.drop_first().drop_first() =~= Seq::<(Seq<char>, Seq<char>)>::empty());
            assert(written_attr(m.drop_first(), "version"@) == Some(x.version@));
            assert(mime_attrs(evs, s1) == Some((x.content_type@, x.version@)));
        },
        None => {
            assert(mime_attrs(evs, s1) == None::<(Seq<char>, Seq<char>)>);
        },
    }
    assert(calendar_data_request_spec(evs, st).0 == Ok::<_, ParsingError>(v@));
}


/// A written request for calendar data, as a property to find, reads back
/// as the same request, but for what `law_cal_data_request_roundtrip`
/// leaves out.
#[verifier::rlimit(40)]
pub proof fn law_cal_property_request_data_roundtrip(
    v: CalPropertyRequest,
    ns: Seq<(Seq<char>, Seq<char>)>,
    evs: Seq<XmlEvent>,
)
    requires
        cal_reads_back(evs, v.qwrite_spec(ns)),
        declarations_only(ns),
        v matches CalPropertyRequest::CalendarData(r) && r.recurrence is None && r.limit_freebusy_set is None && (
        r.comp matches Some(c) ==> comp_law_ok(c)),
    ensures
        <CalPropertyRequest as QRead>::qread_spec(evs, start_state()).0 == Ok::<_, ParsingError>(v@),
{
    let r = match v {
        CalPropertyRequest::CalendarData(r) => r,
        _ => arbitrary(),
    };
    let ws = v.qwrite_spec(ns);
    assert(ws == r.qwrite_spec(ns));
    law_cal_data_request_roundtrip(r, ns, evs);
    assert(cal_event_reads_as(evs[0], ws[0]));
    let x = "calendar-data"@;
    let q = cal_q(x);
    assert(q.skip(2) =~= x);
    assert(q[0] == 'C' && q[1] == ':');
    reveal_strlit("calendar-data");
    reveal_strlit("calendar-home-set");
    reveal_strlit("calendar-description");
    reveal_strlit("calendar-timezone");
    reveal_strlit("supported-calendar-component-set");
    reveal_strlit("supported-calendar-data");
    reveal_strlit("max-resource-size");
    reveal_strlit("min-date-time");
    reveal_strlit("max-date-time");
    reveal_strlit("max-instances");
    reveal_strlit("max-attendees-per-instance");
    reveal_strlit("supported-collation-set");
    let n = cal_property_names();
    assert forall|k: int| 0 <= k < n.len() implies !is_tag_spec(evs[0], CAL_URN@, #[trigger] n[k]) by {
        assert(n[k].len() != x.len() || n[k][0] != x[0]);
    }
    lemma_atoms_miss(evs, start_state(), CAL_URN@, n, 0);
}


/// A written time zone reads back as the same text.
pub proof fn law_cal_timezone_roundtrip(v: TimeZone, ns: Seq<(Seq<char>, Seq<char>)>, evs: Seq<XmlEvent>)
    requires
        cal_reads_back(evs, v.qwrite_spec(ns)),
    ensures
        <TimeZone as QRead>::qread_spec(evs, start_state()).0 == Ok::<_, ParsingError>(v@),
{
    let q = cal_q("timezone"@);
    let ws = v.qwrite_spec(ns);
    assert(cal_event_reads_as(evs[0], ws[0]));
    assert(cal_event_reads_as(evs[1], ws[1]));
    assert(cal_event_reads_as(evs[2], ws[2]));
    assert(q.skip(2) =~= "timezone"@);
    assert(q[0] == 'C' && q[1] == ':');
    let st = start_state();
    let s1 = RState { pos: 1, prev: Some(0), parents: seq![0int] };
    assert(Seq::<int>::empty().push(0) == seq![0int]);
    assert(open_spec(evs, st, CAL_URN@, "timezone"@) == (Ok::<int, ParsingError>(0), s1));
    assert(parent_has_child_spec(evs, s1));
    lemma_text_at(evs, s1, v.0@);
    let s2 = RState { pos: 2, prev: Some(1), parents: seq![0int] };
    assert(seq![0int].drop_last() == Seq::<int>::empty());
    assert(close_spec(evs, s2) == next_spec(evs, pop_parent(s2)));
    assert(timezone_spec(evs, st).0 == Ok::<_, ParsingError>(v@));
}

} // verus!
