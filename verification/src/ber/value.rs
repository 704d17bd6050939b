//! The value of a BER-TLV data object.

use vstd::prelude::*;
use crate::ber::model::{concat_bytes, lemma_concat_take, TlvView, ValueView};
use crate::ber::tag::Tag;
use crate::ber::tlv::{clone_keeps_tag, views, Tlv};
use crate::error::TlvError;

verus! {

/// Value of a BER-TLV data object.
#[derive(PartialEq, Debug)]
pub enum Value<T: Tag> {
    /// Constructed value: nested data objects, in order.
    Constructed(Vec<Tlv<T>>),
    /// Primitive value: raw bytes, possibly none.
    Primitive(Vec<u8>),
}

impl<T: Tag + Clone> Clone for Value<T> {
    /// A copy of the value, children included. Where cloning a tag keeps
    /// its bytes and its flag, the copy is the same value.
    fn clone(&self) -> (res: Self)
        ensures
            clone_keeps_tag::<T>() ==> res@ == self@,
    {
        match self {
            Value::Primitive(v) => {
                let bytes = v.clone();
                assert(bytes@ =~= v@);
                Value::Primitive(bytes)
            },
            Value::Constructed(c) => {
                let mut copies: Vec<Tlv<T>> = Vec::new();
                let mut i: usize = 0;
                while i < c.len()
                    invariant
                        i <= c.len(),
                        copies@.len() == i,
                        clone_keeps_tag::<T>() ==> views(copies@) == views(c@).take(i as int),
                    decreases c.len() - i,
                {
                    let copy = c[i].duplicate();
                    proof {
                        if clone_keeps_tag::<T>() {
                            assert(views(copies@.push(copy)) =~= views(c@).take(i + 1));
                        }
                    }
                    copies.push(copy);
                    i = i + 1;
                }
                proof {
                    assert(views(c@).take(i as int) =~= views(c@));
                }
                Value::Constructed(copies)
            },
        }
    }
}

impl<T: Tag> View for Value<T> {
    type V = ValueView;

    open spec fn view(&self) -> ValueView {
        match self {
            Value::Primitive(b) => ValueView::Primitive(b@),
            Value::Constructed(c) => ValueView::Constructed(views(c@)),
        }
    }
}

impl<T: Tag> Value<T> {
    /// Whether every nested data object is well formed.
    pub open spec fn wf(&self) -> bool {
        match self@ {
            ValueView::Primitive(_) => true,
            ValueView::Constructed(c) => forall|i: int|
                0 <= i < c.len() ==> (#[trigger] c[i]).wf::<T>(),
        }
    }

    /// Whether the value is constructed.
    pub fn is_constructed(&self) -> (b: bool)
        ensures
            b == self@.is_constructed(),
    {
        match self {
            Value::Constructed(_) => true,
            Value::Primitive(_) => false,
        }
    }

    /// Length of the value once serialized.
    pub fn len_as_bytes(&self) -> (n: usize)
        requires
            self@.bytes().len() <= usize::MAX,
        ensures
            n == self@.bytes().len(),
        decreases self, 0nat,
    {
        match self {
            Value::Primitive(v) => v.len(),
            Value::Constructed(c) => {
                let ghost all = views(c@);
                let mut sum: usize = 0;
                let mut i: usize = 0;
                proof {
                    assert(all.take(0) =~= Seq::<TlvView>::empty());
                }
                while i < c.len()
                    invariant
                        i <= c.len(),
                        all == views(c@),
                        concat_bytes(all).len() <= usize::MAX,
                        sum == concat_bytes(all.take(i as int)).len(),
                        self == Value::Constructed(*c),
                    decreases c.len() - i,
                {
                    proof {
                        lemma_concat_take(all, i as int);
                        assert(decreases_to!(*c => c[i as int]));
                        assert(self->Constructed_0 == *c);
                    }
                    sum = sum + c[i].len();
                    i = i + 1;
                }
                proof {
                    assert(all.take(i as int) =~= all);
                }
                sum
            },
        }
    }

    /// Appends a data object to a constructed value.
    ///
    /// Fails with `Inconsistant` on a primitive value, which stays as it was.
    pub fn push(&mut self, tlv: Tlv<T>) -> (res: Result<(), TlvError>)
        ensures
            match old(self)@ {
                ValueView::Constructed(c) => res is Ok && final(self)@ == ValueView::Constructed(
                    c.push(tlv@),
                ),
                ValueView::Primitive(_) => res == Err::<(), TlvError>(TlvError::Inconsistant)
                    && *final(self) == *old(self),
            },
            old(self).wf() && tlv.wf() ==> final(self).wf(),
    {
        match self {
            Value::Constructed(t) => {
                t.push(tlv);
                proof {
                    let before = views(old(self)->Constructed_0@);
                    let after = views(t@);
                    assert(after =~= before.push(tlv@));
                    if old(self).wf() && tlv.wf() {
                        assert(old(self)@->Constructed_0 == before);
                        assert(forall|j: int|
                            0 <= j < before.len() ==> (#[trigger] before[j]).wf::<T>());
                        assert forall|i: int| 0 <= i < after.len() implies (#[trigger] after[i]).wf::<
                            T,
                        >() by {
                            if i < before.len() {
                                assert(after[i] == before[i]);
                            } else {
                                assert(after[i] == tlv@);
                            }
                        }
                    }
                }
                Ok(())
            },
            Value::Primitive(_) => Err(TlvError::Inconsistant),
        }
    }
}

} // verus!
