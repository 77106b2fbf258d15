//! The declared shape of an event.

use crate::kind::{Kind, KindView};
use vstd::prelude::*;

verus! {

/// One field of an event.
#[derive(Debug, PartialEq, Eq)]
pub struct EventField {
    /// The name of the field.
    pub name: String,
    /// The kind of its values.
    pub kind: Kind,
    /// Whether the field is indexed.
    pub indexed: bool,
}

/// An [`EventField`] as a mathematical value.
pub struct EventFieldView {
    pub name: Seq<char>,
    pub kind: KindView,
    pub indexed: bool,
}

impl View for EventField {
    type V = EventFieldView;

    open spec fn view(&self) -> EventFieldView {
        EventFieldView { name: self.name@, kind: self.kind@, indexed: self.indexed }
    }
}

impl Clone for EventField {
    fn clone(&self) -> (copy: Self)
        ensures
            copy@ == self@,
    {
        EventField { name: self.name.clone(), kind: self.kind.clone(), indexed: self.indexed }
    }
}

impl EventField {
    /// Whether two fields are the same.
    pub fn same(&self, other: &EventField) -> (same: bool)
        ensures
            same == (self@ == other@),
    {
        self.name == other.name && self.kind.same(&other.kind) && self.indexed == other.indexed
    }
}

/// The descriptor of an event: its name and its fields in their order.
#[derive(Debug, PartialEq, Eq)]
pub struct EventDescriptor {
    /// The name of the event.
    pub name: String,
    /// The fields of the event.
    pub inputs: Vec<EventField>,
    /// Whether the event is anonymous.
    pub anonymous: bool,
}

/// An [`EventDescriptor`] as a mathematical value.
pub struct EventDescriptorView {
    pub name: Seq<char>,
    pub inputs: Seq<EventFieldView>,
    pub anonymous: bool,
}

impl EventDescriptorView {
    /// The kinds of the fields, in their order.
    pub open spec fn kinds(self) -> Seq<KindView> {
        self.inputs.map_values(|field: EventFieldView| field.kind)
    }

    /// The names of the fields, in their order.
    pub open spec fn names(self) -> Seq<Seq<char>> {
        self.inputs.map_values(|field: EventFieldView| field.name)
    }
}

impl View for EventDescriptor {
    type V = EventDescriptorView;

    open spec fn view(&self) -> EventDescriptorView {
        EventDescriptorView {
            name: self.name@,
            inputs: self.inputs@.map_values(|field: EventField| field@),
            anonymous: self.anonymous,
        }
    }
}

impl Clone for EventDescriptor {
    fn clone(&self) -> (copy: Self)
        ensures
            copy@ == self@,
    {
        let mut inputs: Vec<EventField> = Vec::new();
        let mut i: usize = 0;
        while i < self.inputs.len()
            invariant
                i <= self.inputs.len(),
                inputs.len() == i,
                forall|j: int| 0 <= j < i ==> inputs@[j]@ == self.inputs@[j]@,
            decreases self.inputs.len() - i,
        {
            inputs.push(self.inputs[i].clone());
            i = i + 1;
        }
        let copy = EventDescriptor { name: self.name.clone(), inputs, anonymous: self.anonymous };
        assert(copy@.inputs =~= self@.inputs);
        copy
    }
}

impl EventDescriptor {
    /// Whether two descriptors are the same.
    pub fn same(&self, other: &EventDescriptor) -> (same: bool)
        ensures
            same == (self@ == other@),
    {
        if self.name != other.name || self.anonymous != other.anonymous || self.inputs.len()
            != other.inputs.len() {
            assert(self@.inputs.len() == self.inputs.len());
            assert(other@.inputs.len() == other.inputs.len());
            return false;
        }
        let mut i: usize = 0;
        while i < self.inputs.len()
            invariant
                self.inputs.len() == other.inputs.len(),
                i <= self.inputs.len(),
                forall|j: int| 0 <= j < i ==> self.inputs@[j]@ == other.inputs@[j]@,
            decreases self.inputs.len() - i,
        {
            if !self.inputs[i].same(&other.inputs[i]) {
                assert(self@.inputs[i as int] != other@.inputs[i as int]);
                return false;
            }
            i = i + 1;
        }
        assert(self@.inputs =~= other@.inputs);
        true
    }
}

} // verus!
