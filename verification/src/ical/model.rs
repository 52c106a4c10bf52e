//! An iCalendar object as its parser gives it: components with their
//! properties, properties with their parameters, all as text.
use vstd::prelude::*;

verus! {

/// A property parameter: its name and, if it has one, its value.
#[derive(Debug)]
pub struct IcalParam {
    pub key: String,
    pub val: Option<String>,
}

/// A component property: its name, its value and its parameters.
#[derive(Debug)]
pub struct IcalProperty {
    pub name: String,
    pub val: String,
    pub params: Vec<IcalParam>,
}

/// A calendar component: its name, its properties and its sub-components.
#[derive(Debug)]
pub struct IcalComponent {
    pub name: String,
    pub properties: Vec<IcalProperty>,
    pub components: Vec<IcalComponent>,
}

impl IcalParam {
    /// A copy of the parameter.
    pub fn duplicate(&self) -> (r: Self)
        ensures
            r == *self,
    {
        IcalParam {
            key: self.key.clone(),
            val: match &self.val {
                Some(v) => Some(v.clone()),
                None => None,
            },
        }
    }
}

impl IcalProperty {
    /// A copy of the property.
    pub fn duplicate(&self) -> (r: Self)
        ensures
            r.name == self.name,
            r.val == self.val,
            r.params@ == self.params@,
    {
        let mut params: Vec<IcalParam> = Vec::new();
        let mut i: usize = 0;
        while i < self.params.len()
            invariant
                i <= self.params@.len(),
                params@ == self.params@.take(i as int),
            decreases self.params@.len() - i,
        {
            params.push(self.params[i].duplicate());
            proof {
                assert(self.params@.take(i + 1) == self.params@.take(i as int).push(self.params@[i as int]));
            }
            i = i + 1;
        }
        proof {
            assert(self.params@.take(self.params@.len() as int) == self.params@);
        }
        IcalProperty { name: self.name.clone(), val: self.val.clone(), params }
    }
}

/// A copy of a list of properties.
pub fn duplicate_properties(props: &Vec<IcalProperty>) -> (r: Vec<IcalProperty>)
    ensures
        r@.len() == props@.len(),
        forall|i: int|
            0 <= i < props@.len() ==> (#[trigger] r@[i]).name == props@[i].name && r@[i].val == props@[i].val
                && r@[i].params@ == props@[i].params@,
{
    let mut out: Vec<IcalProperty> = Vec::new();
    let mut i: usize = 0;
    while i < props.len()
        invariant
            i <= props@.len(),
            out@.len() == i,
            forall|k: int|
                0 <= k < i ==> (#[trigger] out@[k]).name == props@[k].name && out@[k].val == props@[k].val
                    && out@[k].params@ == props@[k].params@,
        decreases props@.len() - i,
    {
        out.push(props[i].duplicate());
        i = i + 1;
    }
    out
}

} // verus!
