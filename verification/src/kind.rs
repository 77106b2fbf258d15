//! The grammar of ABI types.

use vstd::prelude::*;

verus! {

/// The declared type of a value: a scalar, or a tuple or an array of kinds.
#[derive(Debug, PartialEq, Eq)]
pub enum Kind {
    /// A signed integer of the given width in bits.
    SignedInt(u32),
    /// An unsigned integer of the given width in bits.
    UnsignedInt(u32),
    /// An address of 20 bytes.
    Address,
    /// A boolean.
    Bool,
    /// A byte string of the given length.
    FixedBytes(usize),
    /// A reference to an external function.
    Function,
    /// A byte string of any length.
    Bytes,
    /// A text.
    String,
    /// A tuple of values of the given kinds.
    Tuple(Vec<Kind>),
    /// An array of the given number of elements of one kind.
    FixedArray(usize, Box<Kind>),
    /// An array of any number of elements of one kind.
    DynamicArray(Box<Kind>),
}

/// A [`Kind`] as a mathematical value.
pub enum KindView {
    SignedInt(nat),
    UnsignedInt(nat),
    Address,
    Bool,
    FixedBytes(nat),
    Function,
    Bytes,
    String,
    Tuple(Seq<KindView>),
    FixedArray(nat, Box<KindView>),
    DynamicArray(Box<KindView>),
}

/// `count` copies of `piece`, one after the other.
pub open spec fn repeated<T>(count: nat, piece: Seq<T>) -> Seq<T>
    decreases count,
{
    if count == 0 {
        Seq::empty()
    } else {
        repeated((count - 1) as nat, piece) + piece
    }
}

impl KindView {
    /// Neither a tuple nor an array.
    pub open spec fn is_scalar(self) -> bool {
        !(self is Tuple || self is FixedArray || self is DynamicArray)
    }

    /// How deep dynamic arrays stand inside one another in this kind: 0
    /// without a dynamic array, 1 where none stands inside another.
    pub open spec fn nesting(self) -> nat
        decreases self,
    {
        match self {
            KindView::Tuple(fields) => Self::nesting_of(fields),
            KindView::FixedArray(_, element) => element.nesting(),
            KindView::DynamicArray(element) => 1 + element.nesting(),
            _ => 0,
        }
    }

    /// The greatest nesting among `kinds`.
    pub open spec fn nesting_of(kinds: Seq<KindView>) -> nat
        decreases kinds,
    {
        if kinds.len() == 0 {
            0
        } else {
            let before = Self::nesting_of(kinds.drop_last());
            let last = kinds.last().nesting();
            if last > before {
                last
            } else {
                before
            }
        }
    }

    /// The number of scalars of this kind that stand outside every dynamic
    /// array, an array of fixed size counting each of its elements.
    pub open spec fn scalar_count(self) -> nat
        decreases self,
    {
        match self {
            KindView::Tuple(fields) => Self::scalar_count_of(fields),
            KindView::FixedArray(size, element) => size * element.scalar_count(),
            KindView::DynamicArray(_) => 0,
            _ => 1,
        }
    }

    /// The sum of the scalar counts of `kinds`.
    pub open spec fn scalar_count_of(kinds: Seq<KindView>) -> nat
        decreases kinds,
    {
        if kinds.len() == 0 {
            0
        } else {
            Self::scalar_count_of(kinds.drop_last()) + kinds.last().scalar_count()
        }
    }

    /// The number of dynamic arrays that a walk through this kind meets, an
    /// array of fixed size counting those of each of its elements. A dynamic
    /// array counts once, and those inside it are not counted.
    pub open spec fn array_count(self) -> nat
        decreases self,
    {
        match self {
            KindView::Tuple(fields) => Self::array_count_of(fields),
            KindView::FixedArray(size, element) => size * element.array_count(),
            KindView::DynamicArray(_) => 1,
            _ => 0,
        }
    }

    /// The sum of the array counts of `kinds`.
    pub open spec fn array_count_of(kinds: Seq<KindView>) -> nat
        decreases kinds,
    {
        if kinds.len() == 0 {
            0
        } else {
            Self::array_count_of(kinds.drop_last()) + kinds.last().array_count()
        }
    }

    /// The number of dynamic arrays that are written in this kind outside
    /// every other dynamic array: one in an array of fixed size counts
    /// once, whatever the size.
    pub open spec fn written_arrays(self) -> nat
        decreases self,
    {
        match self {
            KindView::Tuple(fields) => Self::written_arrays_of(fields),
            KindView::FixedArray(_, element) => element.written_arrays(),
            KindView::DynamicArray(_) => 1,
            _ => 0,
        }
    }

    /// The sum of the written arrays of `kinds`.
    pub open spec fn written_arrays_of(kinds: Seq<KindView>) -> nat
        decreases kinds,
    {
        if kinds.len() == 0 {
            0
        } else {
            Self::written_arrays_of(kinds.drop_last()) + kinds.last().written_arrays()
        }
    }

    /// Whether a walk through this kind meets each dynamic array that is
    /// written in it once: outside dynamic arrays, an array of fixed size
    /// that holds a dynamic array has exactly one element.
    pub open spec fn repeats_no_array(self) -> bool
        decreases self,
    {
        match self {
            KindView::Tuple(fields) => Self::repeat_no_array(fields),
            KindView::FixedArray(size, element) => element.repeats_no_array() && (size == 1
                || element.array_count() == 0),
            _ => true,
        }
    }

    /// Whether each of `kinds` repeats no array.
    pub open spec fn repeat_no_array(kinds: Seq<KindView>) -> bool
        decreases kinds,
    {
        kinds.len() == 0 || (Self::repeat_no_array(kinds.drop_last())
            && kinds.last().repeats_no_array())
    }
}

impl Kind {
    /// The kind as a mathematical value.
    pub open spec fn model(self) -> KindView
        decreases self,
    {
        match self {
            Kind::SignedInt(bits) => KindView::SignedInt(bits as nat),
            Kind::UnsignedInt(bits) => KindView::UnsignedInt(bits as nat),
            Kind::Address => KindView::Address,
            Kind::Bool => KindView::Bool,
            Kind::FixedBytes(len) => KindView::FixedBytes(len as nat),
            Kind::Function => KindView::Function,
            Kind::Bytes => KindView::Bytes,
            Kind::String => KindView::String,
            Kind::Tuple(fields) => KindView::Tuple(Self::models(fields@)),
            Kind::FixedArray(size, element) => KindView::FixedArray(
                size as nat,
                Box::new((*element).model()),
            ),
            Kind::DynamicArray(element) => KindView::DynamicArray(Box::new((*element).model())),
        }
    }

    /// The kinds as mathematical values.
    pub open spec fn models(kinds: Seq<Kind>) -> Seq<KindView>
        decreases kinds,
    {
        if kinds.len() == 0 {
            Seq::empty()
        } else {
            Self::models(kinds.drop_last()).push(kinds.last().model())
        }
    }

    /// `models` keeps the length and takes each kind to its model.
    pub proof fn lemma_models(kinds: Seq<Kind>)
        ensures
            Self::models(kinds).len() == kinds.len(),
            forall|i: int|
                0 <= i < kinds.len() ==> #[trigger] Self::models(kinds)[i] == kinds[i].model(),
        decreases kinds.len(),
    {
        if kinds.len() > 0 {
            let before = kinds.drop_last();
            Self::lemma_models(before);
            assert forall|i: int| 0 <= i < kinds.len() implies #[trigger] Self::models(kinds)[i]
                == kinds[i].model() by {
                if i < kinds.len() - 1 {
                    assert(Self::models(before)[i] == before[i].model());
                }
            }
        }
    }

    /// Whether two kinds are the same.
    pub fn same(&self, other: &Kind) -> (same: bool)
        ensures
            same == (self@ == other@),
        decreases self,
    {
        match (self, other) {
            (Kind::SignedInt(a), Kind::SignedInt(b)) => *a == *b,
            (Kind::UnsignedInt(a), Kind::UnsignedInt(b)) => *a == *b,
            (Kind::Address, Kind::Address) => true,
            (Kind::Bool, Kind::Bool) => true,
            (Kind::FixedBytes(a), Kind::FixedBytes(b)) => *a == *b,
            (Kind::Function, Kind::Function) => true,
            (Kind::Bytes, Kind::Bytes) => true,
            (Kind::String, Kind::String) => true,
            (Kind::Tuple(a), Kind::Tuple(b)) => {
                proof {
                    Self::lemma_models(a@);
                    Self::lemma_models(b@);
                }
                if a.len() != b.len() {
                    return false;
                }
                let mut i: usize = 0;
                while i < a.len()
                    invariant
                        self matches Kind::Tuple(fields) && fields == a,
                        other matches Kind::Tuple(fields) && fields == b,
                        a.len() == b.len(),
                        i <= a.len(),
                        forall|j: int| 0 <= j < i ==> a@[j].model() == b@[j].model(),
                    decreases a.len() - i,
                {
                    if !a[i].same(&b[i]) {
                        proof {
                            Self::lemma_models(a@);
                            Self::lemma_models(b@);
                            assert(Self::models(a@)[i as int] != Self::models(b@)[i as int]);
                        }
                        return false;
                    }
                    i = i + 1;
                }
                proof {
                    Self::lemma_models(a@);
                    Self::lemma_models(b@);
                    assert(Self::models(a@) =~= Self::models(b@));
                }
                true
            },
            (Kind::FixedArray(m, a), Kind::FixedArray(n, b)) => *m == *n && (**a).same(&**b),
            (Kind::DynamicArray(a), Kind::DynamicArray(b)) => (**a).same(&**b),
            _ => false,
        }
    }
}

impl View for Kind {
    type V = KindView;

    open spec fn view(&self) -> KindView {
        self.model()
    }
}

impl Clone for Kind {
    fn clone(&self) -> (copy: Self)
        ensures
            copy@ == self@,
        decreases self,
    {
        match self {
            Kind::SignedInt(bits) => Kind::SignedInt(*bits),
            Kind::UnsignedInt(bits) => Kind::UnsignedInt(*bits),
            Kind::Address => Kind::Address,
            Kind::Bool => Kind::Bool,
            Kind::FixedBytes(len) => Kind::FixedBytes(*len),
            Kind::Function => Kind::Function,
            Kind::Bytes => Kind::Bytes,
            Kind::String => Kind::String,
            Kind::Tuple(fields) => {
                let mut copies: Vec<Kind> = Vec::new();
                let mut i: usize = 0;
                while i < fields.len()
                    invariant
                        self matches Kind::Tuple(all) && all == fields,
                        i <= fields.len(),
                        copies.len() == i,
                        forall|j: int| 0 <= j < i ==> copies@[j].model() == fields@[j].model(),
                    decreases fields.len() - i,
                {
                    copies.push(fields[i].clone());
                    i = i + 1;
                }
                proof {
                    Self::lemma_models(copies@);
                    Self::lemma_models(fields@);
                    assert(Self::models(copies@) =~= Self::models(fields@));
                }
                Kind::Tuple(copies)
            },
            Kind::FixedArray(size, element) => Kind::FixedArray(
                *size,
                Box::new((**element).clone()),
            ),
            Kind::DynamicArray(element) => Kind::DynamicArray(Box::new((**element).clone())),
        }
    }
}

} // verus!
