//! Null-terminated arrays: a run of slots, each of which holds an element or
//! is null, read up to the first null slot.
use crate::sentinel::ends_at;
use crate::sentinel::lemma_run_len_is;
use crate::sentinel::lemma_run_step;
use crate::sentinel::run;
use vstd::prelude::*;

verus! {

/// The terminator of an array: the null slot.
pub open spec fn is_null<T>() -> spec_fn(Option<T>) -> bool {
    |slot: Option<T>| slot is None
}

/// The elements of a null-terminated array: what its slots hold, in order,
/// up to the first null slot. Slots behind that one are not part of the array.
pub open spec fn elements<T>(slots: Seq<Option<T>>) -> Seq<T> {
    run(slots, is_null()).map_values(|slot: Option<T>| slot->Some_0)
}

/// An array that starts with a null slot is empty; one that starts with an
/// element holds that element, then the elements of the slots behind it.
pub proof fn lemma_elements_step<T>(slots: Seq<Option<T>>)
    ensures
        slots.len() == 0 || slots[0] is None ==> elements(slots) == Seq::<T>::empty(),
        slots.len() > 0 && slots[0] is Some ==> elements(slots) == seq![slots[0]->Some_0]
            + elements(slots.drop_first()),
{
    lemma_run_step(slots, is_null());
    if slots.len() > 0 && slots[0] is Some {
        assert(elements(slots) =~= seq![slots[0]->Some_0] + elements(slots.drop_first()));
    } else {
        assert(elements(slots) =~= Seq::<T>::empty());
    }
}

/// Null-terminated C array reader
///
/// A view of slots that somebody else owns. `T` is what a slot that is not
/// null holds: an address, a reference, a handle.
pub struct ArrayReader<'a, T> {
    slots: &'a [Option<T>],
}

impl<'a, T> ArrayReader<'a, T> {
    /// The slots that the reader looks at.
    pub closed spec fn slots(&self) -> Seq<Option<T>> {
        self.slots@
    }

    /// Create a new reader over an array
    ///
    /// The array is given as a pointer is: `None` stands for NULL, and a
    /// reader cannot be made of it.
    pub fn new(array: Option<&'a [Option<T>]>) -> (reader: Self)
        requires
            array is Some,
        ensures
            reader.slots() == array->Some_0@,
    {
        ArrayReader { slots: array.unwrap() }
    }

    /// Get an item from array by index
    ///
    /// Returns `None` for a null slot, and for an index behind the last slot
    /// in view, where nothing is read.
    pub fn get(&self, index: usize) -> (item: Option<&'a T>)
        ensures
            item == if index < self.slots().len() && self.slots()[index as int] is Some {
                Some(&self.slots()[index as int]->Some_0)
            } else {
                None
            },
    {
        if index < self.slots.len() {
            self.slots[index].as_ref()
        } else {
            None
        }
    }

    /// Walks the array from its first slot.
    pub fn into_iter(self) -> (iter: ArrayIter<'a, T>)
        ensures
            iter.slots() == self.slots(),
            iter.current_index() == 0,
            iter.remaining() == elements(self.slots()),
    {
        ArrayIter::new(self)
    }
}

/// Iterator over a C array reader
pub struct ArrayIter<'a, T> {
    reader: ArrayReader<'a, T>,
    current_index: usize,
}

impl<'a, T> ArrayIter<'a, T> {
    #[verifier::type_invariant]
    spec fn in_view(&self) -> bool {
        self.current_index <= self.reader.slots().len()
    }

    /// The slots that the iterator walks.
    pub closed spec fn slots(&self) -> Seq<Option<T>> {
        self.reader.slots()
    }

    /// The index of the slot that is read next.
    pub closed spec fn current_index(&self) -> int {
        self.current_index as int
    }

    /// The items that are still to come, in the order in which they come.
    pub closed spec fn remaining(&self) -> Seq<T> {
        elements(self.slots().skip(self.current_index()))
    }

    /// Starts at the first slot of the reader's array.
    pub fn new(reader: ArrayReader<'a, T>) -> (iter: Self)
        ensures
            iter.slots() == reader.slots(),
            iter.current_index() == 0,
            iter.remaining() == elements(reader.slots()),
    {
        assert(reader.slots().skip(0) =~= reader.slots());
        ArrayIter { reader, current_index: 0 }
    }

    /// Yields the element of the current slot and moves on, or yields `None`
    /// at a null slot and stays there: once the end is reached, every further
    /// call returns `None`, and no slot behind the terminator is read.
    pub fn next(&mut self) -> (item: Option<&'a T>)
        ensures
            final(self).slots() == old(self).slots(),
            match item {
                Some(element) => {
                    &&& old(self).remaining().len() > 0
                    &&& *element == old(self).remaining()[0]
                    &&& final(self).remaining() == old(self).remaining().drop_first()
                    &&& final(self).current_index() == old(self).current_index() + 1
                },
                None => {
                    &&& old(self).remaining().len() == 0
                    &&& final(self).remaining().len() == 0
                    &&& final(self).current_index() == old(self).current_index()
                },
            },
    {
        proof {
            use_type_invariant(&*self);
            assert(self.reader.slots@.len() == self.reader.slots.len());
            let rest = self.slots().skip(self.current_index());
            lemma_elements_step(rest);
            if rest.len() > 0 {
                assert(rest[0] == self.slots()[self.current_index()]);
                assert(rest.drop_first() =~= self.slots().skip(self.current_index() + 1));
            }
        }
        let item = self.reader.get(self.current_index);
        if item.is_some() {
            self.current_index += 1;
        }
        item
    }
}

/// An array of `n` elements followed by a null slot yields exactly those `n`
/// elements, in order, whatever stands behind the null slot.
pub proof fn lemma_elements_of_terminated<T>(items: Seq<T>, behind: Seq<Option<T>>)
    ensures
        elements(items.map_values(|item: T| Some(item)).push(None) + behind) == items,
{
    let slots = items.map_values(|item: T| Some(item)).push(None) + behind;
    assert(ends_at(slots, is_null(), items.len() as int));
    lemma_run_len_is(slots, is_null(), items.len() as int);
    assert(elements(slots) =~= items);
}

/// An array without a null slot is read to the end of the view and no
/// further.
pub proof fn lemma_elements_of_unterminated<T>(items: Seq<T>)
    ensures
        elements(items.map_values(|item: T| Some(item))) == items,
{
    let slots = items.map_values(|item: T| Some(item));
    assert(ends_at(slots, is_null(), items.len() as int));
    lemma_run_len_is(slots, is_null(), items.len() as int);
    assert(elements(slots) =~= items);
}

} // verus!
