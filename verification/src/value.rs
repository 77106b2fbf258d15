//! The values of the fields of a log.

use crate::kind::{Kind, KindView};
use vstd::prelude::*;

verus! {

/// An address of 20 bytes.
#[derive(Debug, Default, Clone, Copy, PartialEq, Eq)]
pub struct Address(pub [u8; 20]);

impl View for Address {
    type V = Seq<u8>;

    open spec fn view(&self) -> Seq<u8> {
        self.0@
    }
}

/// The selector of a function: 4 bytes.
#[derive(Debug, Default, Clone, Copy, PartialEq, Eq)]
pub struct Selector(pub [u8; 4]);

impl View for Selector {
    type V = Seq<u8>;

    open spec fn view(&self) -> Seq<u8> {
        self.0@
    }
}

/// A reference to an external function: a contract and a selector.
#[derive(Debug, Default, Clone, Copy, PartialEq, Eq)]
pub struct ExternalFunction {
    pub address: Address,
    pub selector: Selector,
}

/// 2 to the power of 128.
pub open spec fn word_base() -> int {
    0x1_0000_0000_0000_0000_0000_0000_0000_0000int
}

/// A signed integer of 256 bits, given by the upper and the lower half of
/// its two's complement, with the width in bits of its kind.
#[derive(Debug, Default, Clone, Copy, PartialEq, Eq)]
pub struct Int {
    pub bit_width: u32,
    pub high: i128,
    pub low: u128,
}

impl Int {
    /// The number.
    pub open spec fn value(self) -> int {
        self.high * word_base() + self.low
    }
}

/// An unsigned integer of 256 bits, given by its upper and its lower half,
/// with the width in bits of its kind.
#[derive(Debug, Default, Clone, Copy, PartialEq, Eq)]
pub struct Uint {
    pub bit_width: u32,
    pub high: u128,
    pub low: u128,
}

impl Uint {
    /// The number.
    pub open spec fn value(self) -> int {
        self.high * word_base() + self.low
    }
}

/// A value of one of the kinds. An array holds the kind of its elements.
#[derive(Debug, PartialEq, Eq)]
pub enum Value {
    SignedInt(Int),
    UnsignedInt(Uint),
    Address(Address),
    Bool(bool),
    FixedBytes(Vec<u8>),
    Function(ExternalFunction),
    Bytes(Vec<u8>),
    String(String),
    Tuple(Vec<Value>),
    FixedArray(Kind, Vec<Value>),
    DynamicArray(Kind, Vec<Value>),
}

/// A [`Value`] as a mathematical value. An integer is its width and the
/// number; a function is its address and its selector.
pub enum ValueView {
    SignedInt(nat, int),
    UnsignedInt(nat, int),
    Address(Seq<u8>),
    Bool(bool),
    FixedBytes(Seq<u8>),
    Function(Seq<u8>, Seq<u8>),
    Bytes(Seq<u8>),
    String(Seq<char>),
    Tuple(Seq<ValueView>),
    FixedArray(KindView, Seq<ValueView>),
    DynamicArray(KindView, Seq<ValueView>),
}

impl ValueView {
    /// Neither a tuple nor an array.
    pub open spec fn is_scalar(self) -> bool {
        !(self is Tuple || self is FixedArray || self is DynamicArray)
    }

    /// The kind of the value.
    pub open spec fn kind(self) -> KindView
        decreases self,
    {
        match self {
            ValueView::SignedInt(bits, _) => KindView::SignedInt(bits),
            ValueView::UnsignedInt(bits, _) => KindView::UnsignedInt(bits),
            ValueView::Address(_) => KindView::Address,
            ValueView::Bool(_) => KindView::Bool,
            ValueView::FixedBytes(bytes) => KindView::FixedBytes(bytes.len()),
            ValueView::Function(_, _) => KindView::Function,
            ValueView::Bytes(_) => KindView::Bytes,
            ValueView::String(_) => KindView::String,
            ValueView::Tuple(values) => KindView::Tuple(Self::kinds_of(values)),
            ValueView::FixedArray(element, values) => KindView::FixedArray(
                values.len(),
                Box::new(element),
            ),
            ValueView::DynamicArray(element, _) => KindView::DynamicArray(Box::new(element)),
        }
    }

    /// The kinds of the values, in their order.
    pub open spec fn kinds_of(values: Seq<ValueView>) -> Seq<KindView>
        decreases values,
    {
        if values.len() == 0 {
            Seq::empty()
        } else {
            Self::kinds_of(values.drop_last()).push(values.last().kind())
        }
    }

    /// Whether every array in the value holds elements of its element kind
    /// only.
    pub open spec fn well_formed(self) -> bool
        decreases self,
    {
        match self {
            ValueView::Tuple(values) => Self::all_well_formed(values),
            ValueView::FixedArray(element, values) => Self::all_of_kind(values, element),
            ValueView::DynamicArray(element, values) => Self::all_of_kind(values, element),
            _ => true,
        }
    }

    /// Whether each of the values is well formed.
    pub open spec fn all_well_formed(values: Seq<ValueView>) -> bool
        decreases values,
    {
        values.len() == 0 || (Self::all_well_formed(values.drop_last())
            && values.last().well_formed())
    }

    /// Whether each of the values is well formed and of kind `kind`.
    pub open spec fn all_of_kind(values: Seq<ValueView>, kind: KindView) -> bool
        decreases values,
    {
        values.len() == 0 || (Self::all_of_kind(values.drop_last(), kind)
            && values.last().well_formed() && values.last().kind() == kind)
    }

    /// Whether the value is a well-formed value of kind `kind`.
    pub open spec fn has_kind(self, kind: KindView) -> bool {
        self.well_formed() && self.kind() == kind
    }

    /// `kinds_of` keeps the length and takes each value to its kind.
    pub proof fn lemma_kinds_of(values: Seq<ValueView>)
        ensures
            Self::kinds_of(values).len() == values.len(),
            forall|i: int|
                0 <= i < values.len() ==> #[trigger] Self::kinds_of(values)[i] == values[i].kind(),
        decreases values.len(),
    {
        if values.len() > 0 {
            let before = values.drop_last();
            Self::lemma_kinds_of(before);
            assert forall|i: int| 0 <= i < values.len() implies #[trigger] Self::kinds_of(
                values,
            )[i] == values[i].kind() by {
                if i < values.len() - 1 {
                    assert(Self::kinds_of(before)[i] == before[i].kind());
                }
            }
        }
    }

    /// The values are all well formed where each of them is.
    pub proof fn lemma_all_well_formed(values: Seq<ValueView>)
        ensures
            Self::all_well_formed(values) <==> forall|i: int|
                0 <= i < values.len() ==> (#[trigger] values[i]).well_formed(),
        decreases values.len(),
    {
        if values.len() > 0 {
            let before = values.drop_last();
            Self::lemma_all_well_formed(before);
            if Self::all_well_formed(values) {
                assert forall|i: int| 0 <= i < values.len() implies (
                #[trigger] values[i]).well_formed() by {
                    if i < values.len() - 1 {
                        assert(before[i].well_formed());
                    }
                }
            }
            if forall|i: int| 0 <= i < values.len() ==> (#[trigger] values[i]).well_formed() {
                assert forall|i: int| 0 <= i < before.len() implies (
                #[trigger] before[i]).well_formed() by {
                    assert(values[i].well_formed());
                }
                assert(values[values.len() - 1].well_formed());
            }
        }
    }

    /// The values are all of a kind where each of them is.
    pub proof fn lemma_all_of_kind(values: Seq<ValueView>, kind: KindView)
        ensures
            Self::all_of_kind(values, kind) <==> forall|i: int|
                0 <= i < values.len() ==> (#[trigger] values[i]).has_kind(kind),
        decreases values.len(),
    {
        if values.len() > 0 {
            let before = values.drop_last();
            Self::lemma_all_of_kind(before, kind);
            if Self::all_of_kind(values, kind) {
                assert forall|i: int| 0 <= i < values.len() implies (#[trigger] values[i]).has_kind(
                    kind,
                ) by {
                    if i < values.len() - 1 {
                        assert(before[i].has_kind(kind));
                    }
                }
            }
            if forall|i: int| 0 <= i < values.len() ==> (#[trigger] values[i]).has_kind(kind) {
                assert forall|i: int| 0 <= i < before.len() implies (#[trigger] before[i]).has_kind(
                    kind,
                ) by {
                    assert(values[i].has_kind(kind));
                }
                assert(values[values.len() - 1].has_kind(kind));
            }
        }
    }
}

impl Value {
    /// The value as a mathematical value.
    pub open spec fn model(self) -> ValueView
        decreases self,
    {
        match self {
            Value::SignedInt(number) => ValueView::SignedInt(
                number.bit_width as nat,
                number.value(),
            ),
            Value::UnsignedInt(number) => ValueView::UnsignedInt(
                number.bit_width as nat,
                number.value(),
            ),
            Value::Address(address) => ValueView::Address(address@),
            Value::Bool(truth) => ValueView::Bool(truth),
            Value::FixedBytes(bytes) => ValueView::FixedBytes(bytes@),
            Value::Function(function) => ValueView::Function(
                function.address@,
                function.selector@,
            ),
            Value::Bytes(bytes) => ValueView::Bytes(bytes@),
            Value::String(text) => ValueView::String(text@),
            Value::Tuple(values) => ValueView::Tuple(Self::models(values@)),
            Value::FixedArray(element, values) => ValueView::FixedArray(
                element@,
                Self::models(values@),
            ),
            Value::DynamicArray(element, values) => ValueView::DynamicArray(
                element@,
                Self::models(values@),
            ),
        }
    }

    /// The values as mathematical values.
    pub open spec fn models(values: Seq<Value>) -> Seq<ValueView>
        decreases values,
    {
        if values.len() == 0 {
            Seq::empty()
        } else {
            Self::models(values.drop_last()).push(values.last().model())
        }
    }

    /// `models` keeps the length and takes each value to its model.
    pub proof fn lemma_models(values: Seq<Value>)
        ensures
            Self::models(values).len() == values.len(),
            forall|i: int|
                0 <= i < values.len() ==> #[trigger] Self::models(values)[i] == values[i].model(),
        decreases values.len(),
    {
        if values.len() > 0 {
            let before = values.drop_last();
            Self::lemma_models(before);
            assert forall|i: int| 0 <= i < values.len() implies #[trigger] Self::models(values)[i]
                == values[i].model() by {
                if i < values.len() - 1 {
                    assert(Self::models(before)[i] == before[i].model());
                }
            }
        }
    }

    /// Whether each of `values` is a well-formed value of kind `kind`.
    fn all_have_kind(values: &Vec<Value>, kind: &Kind) -> (all: bool)
        ensures
            all == ValueView::all_of_kind(Self::models(values@), kind@),
        decreases values, 0nat,
    {
        let ghost models = Self::models(values@);
        proof {
            Self::lemma_models(values@);
            ValueView::lemma_all_of_kind(models, kind@);
        }
        let mut i: usize = 0;
        while i < values.len()
            invariant
                models == Self::models(values@),
                models.len() == values.len(),
                i <= values.len(),
                forall|j: int| 0 <= j < i ==> (#[trigger] models[j]).has_kind(kind@),
            decreases values.len() - i,
        {
            proof {
                Self::lemma_models(values@);
            }
            if !values[i].has_kind(kind) {
                proof {
                    ValueView::lemma_all_of_kind(models, kind@);
                    assert(!models[i as int].has_kind(kind@));
                }
                return false;
            }
            i = i + 1;
        }
        proof {
            ValueView::lemma_all_of_kind(models, kind@);
        }
        true
    }

    /// Whether the value is a well-formed value of kind `kind`: of that
    /// kind, with elements of the element kind only in each of its arrays.
    pub fn has_kind(&self, kind: &Kind) -> (fits: bool)
        ensures
            fits == self@.has_kind(kind@),
        decreases self, 1nat,
    {
        match (self, kind) {
            (Value::SignedInt(number), Kind::SignedInt(bits)) => number.bit_width == *bits,
            (Value::UnsignedInt(number), Kind::UnsignedInt(bits)) => number.bit_width == *bits,
            (Value::Address(_), Kind::Address) => true,
            (Value::Bool(_), Kind::Bool) => true,
            (Value::FixedBytes(bytes), Kind::FixedBytes(len)) => bytes.len() == *len,
            (Value::Function(_), Kind::Function) => true,
            (Value::Bytes(_), Kind::Bytes) => true,
            (Value::String(_), Kind::String) => true,
            (Value::Tuple(values), Kind::Tuple(kinds)) => {
                let ghost models = Self::models(values@);
                let ghost wanted = Kind::models(kinds@);
                proof {
                    Self::lemma_models(values@);
                    Kind::lemma_models(kinds@);
                    ValueView::lemma_kinds_of(models);
                    ValueView::lemma_all_well_formed(models);
                }
                if values.len() != kinds.len() {
                    return false;
                }
                let mut i: usize = 0;
                while i < values.len()
                    invariant
                        self matches Value::Tuple(all) && all == values,
                        kind matches Kind::Tuple(all) && all == kinds,
                        models == Self::models(values@),
                        wanted == Kind::models(kinds@),
                        models.len() == values.len(),
                        wanted.len() == kinds.len(),
                        values.len() == kinds.len(),
                        i <= values.len(),
                        forall|j: int| 0 <= j < i ==> (#[trigger] models[j]).has_kind(wanted[j]),
                    decreases values.len() - i,
                {
                    proof {
                        Self::lemma_models(values@);
                        Kind::lemma_models(kinds@);
                    }
                    if !values[i].has_kind(&kinds[i]) {
                        proof {
                            ValueView::lemma_kinds_of(models);
                            ValueView::lemma_all_well_formed(models);
                            assert(!models[i as int].has_kind(wanted[i as int]));
                            if models[i as int].well_formed() {
                                assert(ValueView::kinds_of(models)[i as int] != wanted[i as int]);
                            }
                        }
                        return false;
                    }
                    i = i + 1;
                }
                proof {
                    ValueView::lemma_kinds_of(models);
                    ValueView::lemma_all_well_formed(models);
                    assert(ValueView::kinds_of(models) =~= wanted);
                }
                true
            },
            (Value::FixedArray(element, values), Kind::FixedArray(size, wanted)) => {
                proof {
                    Self::lemma_models(values@);
                }
                values.len() == *size && element.same(&**wanted) && Self::all_have_kind(
                    values,
                    element,
                )
            },
            (Value::DynamicArray(element, values), Kind::DynamicArray(wanted)) => {
                element.same(&**wanted) && Self::all_have_kind(values, element)
            },
            _ => false,
        }
    }
}

impl View for Value {
    type V = ValueView;

    open spec fn view(&self) -> ValueView {
        self.model()
    }
}

impl Clone for Value {
    fn clone(&self) -> (copy: Self)
        ensures
            copy@ == self@,
        decreases self, 1nat,
    {
        match self {
            Value::SignedInt(number) => Value::SignedInt(*number),
            Value::UnsignedInt(number) => Value::UnsignedInt(*number),
            Value::Address(address) => Value::Address(*address),
            Value::Bool(truth) => Value::Bool(*truth),
            Value::FixedBytes(bytes) => Value::FixedBytes(copy_bytes(bytes)),
            Value::Function(function) => Value::Function(*function),
            Value::Bytes(bytes) => Value::Bytes(copy_bytes(bytes)),
            Value::String(text) => Value::String(text.clone()),
            Value::Tuple(values) => Value::Tuple(clone_values(values)),
            Value::FixedArray(element, values) => Value::FixedArray(
                element.clone(),
                clone_values(values),
            ),
            Value::DynamicArray(element, values) => Value::DynamicArray(
                element.clone(),
                clone_values(values),
            ),
        }
    }
}

/// A copy of `bytes`.
pub fn copy_bytes(bytes: &Vec<u8>) -> (copy: Vec<u8>)
    ensures
        copy@ == bytes@,
{
    let mut copy: Vec<u8> = Vec::new();
    let mut i: usize = 0;
    while i < bytes.len()
        invariant
            i <= bytes.len(),
            copy@ == bytes@.take(i as int),
        decreases bytes.len() - i,
    {
        copy.push(bytes[i]);
        assert(copy@ =~= bytes@.take(i + 1));
        i = i + 1;
    }
    assert(bytes@.take(bytes.len() as int) =~= bytes@);
    copy
}

fn clone_values(values: &Vec<Value>) -> (copies: Vec<Value>)
    ensures
        Value::models(copies@) == Value::models(values@),
    decreases values, 0nat,
{
    let mut copies: Vec<Value> = Vec::new();
    let mut i: usize = 0;
    while i < values.len()
        invariant
            i <= values.len(),
            copies.len() == i,
            forall|j: int| 0 <= j < i ==> copies@[j].model() == values@[j].model(),
        decreases values.len() - i,
    {
        copies.push(values[i].clone());
        i = i + 1;
    }
    proof {
        Value::lemma_models(copies@);
        Value::lemma_models(values@);
        assert(Value::models(copies@) =~= Value::models(values@));
    }
    copies
}

} // verus!
