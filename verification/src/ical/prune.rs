//! Cutting a calendar object down to the components and properties a
//! `calendar-data` request asks for (RFC 4791, section 9.6).
use vstd::prelude::*;

use super::model::{IcalComponent, IcalParam, IcalProperty};
use crate::dav::caltypes::{component_name, CalProp, Comp, CompKind, PropKind};
use crate::text::str_eq;

verus! {

/// A parameter as text.
pub open spec fn param_view(p: IcalParam) -> (Seq<char>, Option<Seq<char>>) {
    (
        p.key@,
        match p.val {
            Some(v) => Some(v@),
            None => None,
        },
    )
}

/// The parameters of a property as text.
pub open spec fn params_view(ps: Seq<IcalParam>) -> Seq<(Seq<char>, Option<Seq<char>>)> {
    ps.map_values(|p: IcalParam| param_view(p))
}

/// A property as text: name, value, parameters.
pub open spec fn prop_view(p: IcalProperty) -> (Seq<char>, Seq<char>, Seq<(Seq<char>, Option<Seq<char>>)>) {
    (p.name@, p.val@, params_view(p.params@))
}

/// Whether two components hold the same text throughout.
pub open spec fn same_comp(a: IcalComponent, b: IcalComponent) -> bool
    decreases a,
{
    &&& a.name@ == b.name@
    &&& a.properties@.len() == b.properties@.len()
    &&& forall|i: int| 0 <= i < a.properties@.len() ==> prop_view(#[trigger] a.properties@[i]) == prop_view(b.properties@[i])
    &&& a.components@.len() == b.components@.len()
    &&& forall|i: int| 0 <= i < a.components@.len() ==> same_comp(#[trigger] a.components@[i], b.components@[i])
}

/// The position of the first requested property named `name`, from `i` on.
pub open spec fn first_cal_prop(list: Seq<CalProp>, name: Seq<char>, i: int) -> Option<int>
    decreases list.len() - i,
{
    if 0 <= i < list.len() {
        if list[i].name.0@ == name {
            Some(i)
        } else {
            first_cal_prop(list, name, i + 1)
        }
    } else {
        None
    }
}

/// What a property becomes when a request for it is found: the property
/// itself, or with an empty value when the request asks for no value.
pub open spec fn prop_kept(p: IcalProperty, sel: CalProp) -> (Seq<char>, Seq<char>, Seq<(Seq<char>, Option<Seq<char>>)>) {
    match sel.novalue {
        Some(true) => (p.name@, Seq::empty(), params_view(p.params@)),
        _ => prop_view(p),
    }
}

/// The properties kept from `src` by the requested ones, in order: those
/// that some request names, each by the first request of its name.
pub open spec fn props_selected(src: Seq<IcalProperty>, list: Seq<CalProp>) -> Seq<
    (Seq<char>, Seq<char>, Seq<(Seq<char>, Option<Seq<char>>)>),
>
    decreases src.len(),
{
    if src.len() == 0 {
        Seq::empty()
    } else {
        let prev = props_selected(src.drop_last(), list);
        match first_cal_prop(list, src.last().name@, 0) {
            Some(k) => prev.push(prop_kept(src.last(), list[k])),
            None => prev,
        }
    }
}

/// The position of the first component request named `name`, from `i` on.
pub open spec fn first_comp_req(list: Seq<Comp>, name: Seq<char>, i: int) -> Option<int>
    decreases list.len() - i,
{
    if 0 <= i < list.len() {
        if component_name(list[i].name) == name {
            Some(i)
        } else {
            first_comp_req(list, name, i + 1)
        }
    } else {
        None
    }
}

/// Whether `out` is `src` cut down to what `prune` asks for: the same
/// name; all properties, or the requested ones; all components, or each
/// component that a request names, cut down by the first such request.
pub open spec fn pruned(src: IcalComponent, prune: Comp, out: IcalComponent) -> bool
    decreases src, 1int,
{
    &&& out.name@ == src.name@
    &&& match prune.prop_kind {
        Some(PropKind::Prop(list)) => out.properties@.map_values(|p: IcalProperty| prop_view(p)) == props_selected(
            src.properties@,
            list@,
        ),
        _ => out.properties@.map_values(|p: IcalProperty| prop_view(p)) == src.properties@.map_values(
            |p: IcalProperty| prop_view(p),
        ),
    }
    &&& match prune.comp_kind {
        Some(CompKind::Comp(list)) => comps_pruned(src, src.components@.len() as int, list@, out.components@),
        _ => {
            &&& out.components@.len() == src.components@.len()
            &&& forall|i: int| 0 <= i < src.components@.len() ==> same_comp(#[trigger] src.components@[i], out.components@[i])
        },
    }
}

/// Whether `outs` are the first `n` components of `parent` cut down by the
/// requests: those that a request names, each by the first such request.
pub open spec fn comps_pruned(parent: IcalComponent, n: int, list: Seq<Comp>, outs: Seq<IcalComponent>) -> bool
    decreases parent, 0int, n,
{
    if n <= 0 || n > parent.components@.len() {
        outs.len() == 0
    } else {
        let c = parent.components@[n - 1];
        match first_comp_req(list, c.name@, 0) {
            None => comps_pruned(parent, n - 1, list, outs),
            Some(k) => {
                &&& outs.len() > 0
                &&& comps_pruned(parent, n - 1, list, outs.drop_last())
                &&& pruned(c, list[k], outs.last())
            },
        }
    }
}

} // verus!

verus! {

/// A deep copy of a component.
pub fn duplicate_component(c: &IcalComponent) -> (r: IcalComponent)
    ensures
        same_comp(*c, r),
    decreases c,
{
    let properties = super::model::duplicate_properties(&c.properties);
    let mut components: Vec<IcalComponent> = Vec::new();
    let mut i: usize = 0;
    while i < c.components.len()
        invariant
            i <= c.components@.len(),
            components@.len() == i,
            forall|k: int| 0 <= k < i ==> same_comp(#[trigger] c.components@[k], components@[k]),
        decreases c.components@.len() - i,
    {
        proof {
            assert(decreases_to!(*c => c.components@[i as int]));
        }
        components.push(duplicate_component(&c.components[i]));
        i = i + 1;
    }
    let r = IcalComponent { name: c.name.clone(), properties, components };
    proof {
        assert forall|k: int| 0 <= k < c.properties@.len() implies prop_view(#[trigger] c.properties@[k]) == prop_view(
            r.properties@[k],
        ) by {}
    }
    r
}

/// The requested properties of `src`: each that a request names, by the
/// first request of its name, with an empty value when that request asks
/// for no value.
fn select_props(src: &Vec<IcalProperty>, list: &Vec<CalProp>) -> (r: Vec<IcalProperty>)
    ensures
        r@.map_values(|p: IcalProperty| prop_view(p)) == props_selected(src@, list@),
{
    let mut out: Vec<IcalProperty> = Vec::new();
    let mut i: usize = 0;
    proof {
        assert(src@.take(0) == Seq::<IcalProperty>::empty());
        assert(out@.map_values(|p: IcalProperty| prop_view(p)) == props_selected(src@.take(0), list@));
    }
    while i < src.len()
        invariant
            i <= src@.len(),
            out@.map_values(|p: IcalProperty| prop_view(p)) == props_selected(src@.take(i as int), list@),
        decreases src@.len() - i,
    {
        let prop = &src[i];
        let mut j: usize = 0;
        let mut found: Option<usize> = None;
        while j < list.len() && found.is_none()
            invariant
                j <= list@.len(),
                found is None ==> first_cal_prop(list@, prop.name@, 0) == first_cal_prop(list@, prop.name@, j as int),
                found matches Some(k) ==> first_cal_prop(list@, prop.name@, 0) == Some(k as int) && k < list@.len(),
            decreases list@.len() - j,
        {
            if str_eq(list[j].name.0.as_str(), prop.name.as_str()) {
                found = Some(j);
            }
            j = j + 1;
        }
        proof {
            assert(src@.take(i + 1).drop_last() == src@.take(i as int));
            assert(src@.take(i + 1).last() == *prop);
        }
        match found {
            None => {},
            Some(k) => {
                let kept = match list[k].novalue {
                    Some(true) => IcalProperty {
                        name: prop.name.clone(),
                        params: prop.duplicate().params,
                        val: String::new(),
                    },
                    _ => prop.duplicate(),
                };
                let ghost before = out@;
                out.push(kept);
                proof {
                    assert(out@.map_values(|p: IcalProperty| prop_view(p)) == before.map_values(
                        |p: IcalProperty| prop_view(p),
                    ).push(prop_view(kept)));
                }
            },
        }
        i = i + 1;
    }
    proof {
        assert(src@.take(src@.len() as int) == src@);
    }
    out
}

/// Cuts `src` down to what `prune` asks for, when it is the component
/// `prune` names: its requested properties (all by default) and its
/// requested sub-components, each cut down in turn (all by default).
/// Nothing when the names differ.
pub fn component(src: &IcalComponent, prune: &Comp) -> (r: Option<IcalComponent>)
    ensures
        r is Some <==> src.name@ == component_name(prune.name),
        r matches Some(c) ==> pruned(*src, *prune, c),
    decreases src,
{
    if !str_eq(src.name.as_str(), prune.name.as_str()) {
        return None;
    }
    let name = src.name.clone();
    let properties = match &prune.prop_kind {
        Some(PropKind::Prop(l)) => select_props(&src.properties, l),
        _ => super::model::duplicate_properties(&src.properties),
    };
    let components = match &prune.comp_kind {
        Some(CompKind::Comp(list)) => {
            let mut out: Vec<IcalComponent> = Vec::new();
            let mut i: usize = 0;
            while i < src.components.len()
                invariant
                    i <= src.components@.len(),
                    comps_pruned(*src, i as int, list@, out@),
                decreases src.components@.len() - i,
            {
                let sc = &src.components[i];
                let mut j: usize = 0;
                let mut found: Option<IcalComponent> = None;
                while j < list.len() && found.is_none()
                    invariant
                        j <= list@.len(),
                        i < src.components@.len(),
                        *sc == src.components@[i as int],
                        found is None ==> first_comp_req(list@, sc.name@, 0) == first_comp_req(list@, sc.name@, j as int),
                        found matches Some(c) ==> j > 0 && first_comp_req(list@, sc.name@, 0) == Some(j - 1) && pruned(
                            *sc,
                            list@[j - 1],
                            c,
                        ),
                    decreases list@.len() - j,
                {
                    proof {
                        assert(decreases_to!(*src => src.components@[i as int]));
                    }
                    found = component(sc, &list[j]);
                    j = j + 1;
                }
                let ghost before = out@;
                match found {
                    Some(c) => {
                        out.push(c);
                        proof {
                            assert(out@.drop_last() == before);
                        }
                    },
                    None => {},
                }
                i = i + 1;
            }
            out
        },
        _ => {
            let mut out: Vec<IcalComponent> = Vec::new();
            let mut i: usize = 0;
            while i < src.components.len()
                invariant
                    i <= src.components@.len(),
                    out@.len() == i,
                    forall|k: int| 0 <= k < i ==> same_comp(#[trigger] src.components@[k], out@[k]),
                decreases src.components@.len() - i,
            {
                out.push(duplicate_component(&src.components[i]));
                i = i + 1;
            }
            out
        },
    };
    let r = IcalComponent { name, properties, components };
    proof {
        match prune.prop_kind {
            Some(PropKind::Prop(_)) => {},
            _ => {
                assert(r.properties@.map_values(|p: IcalProperty| prop_view(p)) == src.properties@.map_values(
                    |p: IcalProperty| prop_view(p),
                ));
            },
        }
    }
    Some(r)
}

} // verus!
