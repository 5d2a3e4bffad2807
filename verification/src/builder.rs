//! Piecewise construction of strings.

use vstd::prelude::*;
use vstd::slice::slice_subrange;
use vstd::std_specs::iter::IteratorSpec;

use crate::external::size_hint_lower;
use crate::js_str;
use crate::js_string::JsString;
use crate::layout;
use crate::private::JsStringData;
use crate::raw::RawJsString;

verus! {

/// How many elements a builder with room for `capacity` asks room for when it needs room for
/// `required`: twice as many as before, and eight bytes at the least.
pub open spec fn requested_capacity(capacity: int, required: int, size: int) -> int {
    let doubled = if 2 * capacity >= required {
        2 * capacity
    } else {
        required
    };
    if doubled >= 8int / size {
        doubled
    } else {
        8int / size
    }
}

/// How many elements there is room for after growing.
pub open spec fn grown_capacity(capacity: int, required: int, size: int) -> int {
    layout::usable_capacity(requested_capacity(capacity, required, size), size)
}

/// Whether there is room for `required` elements, or room can be made.
pub open spec fn can_hold(capacity: int, required: int, size: int) -> bool {
    required <= capacity || layout::fits(requested_capacity(capacity, required, size), size)
}

/// How many elements there is room for after room for `required` has been made where it was
/// missing.
pub open spec fn sufficient_capacity(capacity: int, required: int, size: int) -> int {
    if required <= capacity {
        capacity
    } else {
        grown_capacity(capacity, required, size)
    }
}

/// Whether `count` elements can be appended one by one to `len` of them.
pub open spec fn can_push(capacity: int, len: int, count: nat, size: int) -> bool
    decreases count,
{
    count == 0 || {
        &&& can_hold(capacity, len + 1, size)
        &&& can_push(
            sufficient_capacity(capacity, len + 1, size),
            len + 1,
            (count - 1) as nat,
            size,
        )
    }
}

/// How many elements there is room for after `count` elements have been appended one by one to
/// `len` of them.
pub open spec fn pushed_capacity(capacity: int, len: int, count: nat, size: int) -> int
    decreases count,
{
    if count == 0 {
        capacity
    } else {
        pushed_capacity(
            sufficient_capacity(capacity, len + 1, size),
            len + 1,
            (count - 1) as nat,
            size,
        )
    }
}

/// How many elements there is room for after an attempt to make room for `required` of them: room
/// is made as it is for appending, or for no more than is required where only that is few enough
/// for a memory block, or not at all where even that is not.
pub open spec fn attainable_capacity(capacity: int, required: int, size: int) -> int {
    if can_hold(capacity, required, size) {
        sufficient_capacity(capacity, required, size)
    } else if layout::fits(required, size) {
        layout::usable_capacity(required, size)
    } else {
        capacity
    }
}

/// How many elements there is room for after an iterator has handed out `count` of them, for each
/// of which room was made where it was missing.
pub open spec fn drained_capacity(capacity: int, len: int, count: nat, size: int) -> int
    decreases count,
{
    if count == 0 {
        capacity
    } else {
        drained_capacity(
            attainable_capacity(capacity, len + 1, size),
            len + 1,
            (count - 1) as nat,
            size,
        )
    }
}

/// How many elements there is room for after `len` of them have been extended with `count` more
/// from an iterator that had announced `lower_bound`.
pub open spec fn extended_capacity(
    capacity: int,
    len: int,
    lower_bound: int,
    count: nat,
    size: int,
) -> int {
    drained_capacity(attainable_capacity(capacity, len + lower_bound, size), len, count, size)
}

/// `items` with `added` written over it from position `at` on.
pub open spec fn overwrite<D>(items: Seq<D>, at: int, added: Seq<D>) -> Seq<D> {
    items.take(at) + added + if at + added.len() < items.len() {
        items.skip(at + added.len())
    } else {
        seq![]
    }
}

/// The code units that elements stand for.
pub open spec fn units_of<D: JsStringData>(items: Seq<D>) -> Seq<u16> {
    items.map_values(|item: D| item.as_unit())
}

/// A mutable builder to create instance of `JsString`.
///
/// # Examples
///
/// ```rust
/// use boa_string::JsStringBuilder;
/// let mut s = JsStringBuilder::new();
/// s.push(b'x');
/// s.extend_from_slice(&[b'1', b'2', b'3']);
/// s.extend([b'1', b'2', b'3'].into_iter());
/// let js_string = s.build();
/// ```
///
/// The view of a builder is the sequence of its elements.
#[derive(Debug)]
pub struct JsStringBuilder<D: JsStringData> {
    /// The number of elements that there is room for.
    cap: usize,
    /// The number of elements.
    len: usize,
    /// Everything that was written: the elements, and what remains behind them of a longer
    /// content.
    data: Vec<D>,
}

impl<D: JsStringData> View for JsStringBuilder<D> {
    type V = Seq<D>;

    closed spec fn view(&self) -> Seq<D> {
        self.data@.take(self.len as int)
    }
}

impl<D: JsStringData> JsStringBuilder<D> {
    /// The elements, followed by what was written behind them before the length was set back.
    pub closed spec fn initialized(&self) -> Seq<D> {
        self.data@
    }

    /// The number of elements that there is room for.
    pub closed spec fn room(&self) -> int {
        self.cap as int
    }

    #[verifier::type_invariant]
    closed spec fn inv(&self) -> bool {
        &&& self.len <= self.data@.len() <= self.cap
        &&& layout::fits(self.cap as int, D::size())
        &&& layout::usable_capacity(self.cap as int, D::size()) == self.cap
    }

    /// Create a new `JsStringBuilder` with capacity of zero.
    pub fn new() -> (builder: JsStringBuilder<D>)
        ensures
            builder@ == Seq::<D>::empty(),
            builder.initialized() == Seq::<D>::empty(),
            builder.room() == 0,
    {
        proof {
            D::lemma_size();
            layout::lemma_block_size(0, D::size());
        }
        let builder = JsStringBuilder { cap: 0, len: 0, data: Vec::new() };
        assert(builder@ =~= Seq::<D>::empty());
        builder
    }

    /// Returns the number of elements that inner holds.
    pub fn len(&self) -> (len: usize)
        ensures
            len == self@.len(),
    {
        proof {
            use_type_invariant(self);
        }
        self.len
    }

    /// Forces the length of the [`JsStringBuilder`] to `new_len`. A greater length brings back
    /// elements that were written before the length was set back; there must be as many.
    pub fn set_len(&mut self, new_len: usize)
        requires
            new_len <= old(self).initialized().len(),
        ensures
            final(self)@ == old(self).initialized().take(new_len as int),
            final(self).initialized() == old(self).initialized(),
            final(self).room() == old(self).room(),
    {
        proof {
            use_type_invariant(&*self);
        }
        self.len = new_len;
    }

    /// Returns the total number of elements can hold without reallocating
    pub fn capacity(&self) -> (capacity: usize)
        ensures
            capacity == self.room(),
            capacity >= self.initialized().len() >= self@.len(),
    {
        proof {
            use_type_invariant(self);
        }
        self.cap
    }

    /// create a new `JsStringBuilder` with specific capacity
    ///
    /// The capacity must be small enough for a memory block.
    pub fn with_capacity(cap: usize) -> (builder: JsStringBuilder<D>)
        requires
            layout::fits(cap as int, D::size()),
        ensures
            builder@ == Seq::<D>::empty(),
            builder.initialized() == Seq::<D>::empty(),
            builder.room() == layout::usable_capacity(cap as int, D::size()),
            builder.room() >= cap,
    {
        proof {
            D::lemma_size();
            layout::lemma_block_size(cap as int, D::size());
            layout::lemma_usable_capacity(cap as int, D::size());
        }
        let size = Self::new_layout(cap);
        let usable = layout::capacity_from_layout(size, D::data_size());
        let builder = JsStringBuilder { cap: usable, len: 0, data: Vec::with_capacity(usable) };
        assert(builder@ =~= Seq::<D>::empty());
        builder
    }

    /// The size of a memory block for `cap` elements.
    fn new_layout(cap: usize) -> (size: usize)
        requires
            layout::fits(cap as int, D::size()),
        ensures
            size == layout::block_size(cap as int, D::size()),
    {
        proof {
            D::lemma_size();
        }
        layout::string_layout(cap, D::data_size()).unwrap()
    }

    /// Allocates memory to the inner by the given capacity.
    /// Capacity calculation is from [`std::vec::Vec::reserve`].
    fn allocate(&mut self, cap: usize)
        requires
            layout::fits(requested_capacity(old(self).room(), cap as int, D::size()), D::size()),
        ensures
            final(self)@ == old(self)@,
            final(self).initialized() == old(self).initialized(),
            final(self).room() == grown_capacity(old(self).room(), cap as int, D::size()),
            final(self).room() >= cap,
    {
        let requested = self.next_capacity(cap);
        proof {
            use_type_invariant(&*self);
            D::lemma_size();
            lemma_request_bound(self.room(), cap as int, D::size());
        }
        self.allocate_inner(requested);
    }

    /// How many elements to make room for so that `cap` of them fit.
    fn next_capacity(&self, cap: usize) -> (requested: usize)
        ensures
            requested == requested_capacity(self.room(), cap as int, D::size()),
    {
        proof {
            use_type_invariant(self);
            D::lemma_size();
            layout::lemma_block_size(self.cap as int, D::size());
        }
        let doubled = if self.cap * 2 >= cap {
            self.cap * 2
        } else {
            cap
        };
        let least = 8 / D::data_size();
        if doubled >= least {
            doubled
        } else {
            least
        }
    }

    /// Moves the content to a block for `requested` elements, more or fewer than there was room
    /// for, and no fewer than there are. What was written behind the elements is kept as far as
    /// the block reaches.
    fn allocate_inner(&mut self, requested: usize)
        requires
            layout::fits(requested as int, D::size()),
            requested >= old(self)@.len(),
        ensures
            final(self)@ == old(self)@,
            final(self).initialized() == if old(self).initialized().len() <= final(self).room() {
                old(self).initialized()
            } else {
                old(self).initialized().take(final(self).room())
            },
            final(self).room() == layout::usable_capacity(requested as int, D::size()),
            final(self).room() >= requested,
    {
        proof {
            use_type_invariant(&*self);
            D::lemma_size();
            layout::lemma_block_size(requested as int, D::size());
            layout::lemma_usable_capacity(requested as int, D::size());
        }
        let size = Self::new_layout(requested);
        let cap = layout::capacity_from_layout(size, D::data_size());
        let len = self.len;
        let mut data = self.take_data();
        proof {
            use_type_invariant(&*self);
        }
        if data.len() > cap {
            data.truncate(cap);
        } else {
            data.reserve(cap - data.len());
        }
        self.cap = cap;
        self.data = data;
        self.len = len;
        assert(self@ =~= old(self)@);
    }

    /// Takes out everything that was written, and leaves the builder empty.
    fn take_data(&mut self) -> (data: Vec<D>)
        ensures
            data@ == old(self).initialized(),
            final(self)@ == Seq::<D>::empty(),
            final(self).initialized() == Seq::<D>::empty(),
            final(self).room() == old(self).room(),
    {
        proof {
            use_type_invariant(&*self);
        }
        let mut data: Vec<D> = Vec::new();
        self.len = 0;
        std::mem::swap(&mut self.data, &mut data);
        assert(self@ =~= Seq::<D>::empty());
        data
    }

    /// Appends an element to the inner of `JsStringBuilder`.
    ///
    /// The content must remain small enough for a memory block.
    pub fn push(&mut self, v: D)
        requires
            can_hold(old(self).room(), (old(self)@.len() + 1) as int, D::size()),
        ensures
            final(self)@ == old(self)@.push(v),
            final(self).initialized() == overwrite(
                old(self).initialized(),
                old(self)@.len() as int,
                seq![v],
            ),
            final(self).room() == sufficient_capacity(
                old(self).room(),
                (old(self)@.len() + 1) as int,
                D::size(),
            ),
    {
        proof {
            use_type_invariant(&*self);
        }
        let len = self.len;
        if len == self.cap {
            proof {
                D::lemma_size();
                layout::lemma_block_size(self.cap as int, D::size());
            }
            self.allocate(len + 1);
        }
        self.push_unchecked(v);
    }

    /// Appends an element to the inner of `JsStringBuilder`.
    ///
    /// The capacity must be large enough to hold it.
    pub fn push_unchecked(&mut self, v: D)
        requires
            old(self)@.len() < old(self).room(),
        ensures
            final(self)@ == old(self)@.push(v),
            final(self).initialized() == overwrite(
                old(self).initialized(),
                old(self)@.len() as int,
                seq![v],
            ),
            final(self).room() == old(self).room(),
    {
        proof {
            use_type_invariant(&*self);
        }
        let len = self.len;
        let mut data = self.take_data();
        proof {
            use_type_invariant(&*self);
        }
        if len < data.len() {
            data[len] = v;
        } else {
            data.push(v);
        }
        self.data = data;
        self.len = len + 1;
        proof {
            assert(self.data@ =~= overwrite(old(self).data@, len as int, seq![v]));
            assert(self@ =~= old(self)@.push(v));
        }
    }

    /// Push elements from slice to `JsStringBuilder`.
    ///
    /// The capacity must be large enough to hold them.
    pub fn extend_from_slice_unchecked(&mut self, v: &[D])
        requires
            old(self)@.len() + v@.len() <= old(self).room(),
        ensures
            final(self)@ == old(self)@ + v@,
            final(self).initialized() == overwrite(
                old(self).initialized(),
                old(self)@.len() as int,
                v@,
            ),
            final(self).room() == old(self).room(),
    {
        proof {
            use_type_invariant(&*self);
        }
        let len = self.len;
        let mut data = self.take_data();
        proof {
            use_type_invariant(&*self);
        }
        let ghost before = data@;
        assert(overwrite(before, len as int, v@.take(0)) =~= before);
        for i in 0..v.len()
            invariant
                len + v@.len() <= old(self).room(),
                len <= before.len() <= old(self).room(),
                old(self).room() <= usize::MAX,
                data@ == overwrite(before, len as int, v@.take(i as int)),
        {
            if len + i < data.len() {
                data[len + i] = v[i];
            } else {
                data.push(v[i]);
            }
            assert(data@ =~= overwrite(before, len as int, v@.take(i + 1)));
        }
        assert(v@.take(v@.len() as int) =~= v@);
        self.data = data;
        self.len = len + v.len();
        assert(self@ =~= old(self)@ + v@);
    }

    /// push elements from slice to `JsStringBuilder`.
    ///
    /// The content must remain small enough for a memory block.
    pub fn extend_from_slice(&mut self, v: &[D])
        requires
            can_hold(old(self).room(), (old(self)@.len() + v@.len()) as int, D::size()),
        ensures
            final(self)@ == old(self)@ + v@,
            final(self).initialized() == overwrite(
                old(self).initialized(),
                old(self)@.len() as int,
                v@,
            ),
            final(self).room() == sufficient_capacity(
                old(self).room(),
                (old(self)@.len() + v@.len()) as int,
                D::size(),
            ),
    {
        self.reserve(v.len());
        self.extend_from_slice_unchecked(v);
    }

    /// Extends `JsStringBuilder` with the contents of an iterator that ends.
    ///
    /// The content must remain small enough for a memory block.
    pub fn extend<I: Iterator<Item = D>>(&mut self, iter: I)
        requires
            iter.obeys_prophetic_iter_laws(),
            iter.decrease() is Some,
            layout::fits((old(self)@.len() + iter.remaining().len()) as int, D::size()),
        ensures
            final(self)@ == old(self)@ + iter.remaining(),
            final(self).initialized() == overwrite(
                old(self).initialized(),
                old(self)@.len() as int,
                iter.remaining(),
            ),
            final(self).room() >= old(self).room(),
            final(self).room() >= final(self)@.len(),
            exists|lower_bound: usize|
                final(self).room() == #[trigger] extended_capacity(
                    old(self).room(),
                    old(self)@.len() as int,
                    lower_bound as int,
                    iter.remaining().len(),
                    D::size(),
                ),
    {
        let lower_bound = size_hint_lower(&iter);
        self.extend_hinted(iter, lower_bound);
    }

    /// Extends `JsStringBuilder` with the contents of an iterator that ends and has announced
    /// `lower_bound` items, for which room is made beforehand.
    ///
    /// The content must remain small enough for a memory block.
    pub fn extend_hinted<I: Iterator<Item = D>>(&mut self, iter: I, lower_bound: usize)
        requires
            iter.obeys_prophetic_iter_laws(),
            iter.decrease() is Some,
            layout::fits((old(self)@.len() + iter.remaining().len()) as int, D::size()),
        ensures
            final(self)@ == old(self)@ + iter.remaining(),
            final(self).initialized() == overwrite(
                old(self).initialized(),
                old(self)@.len() as int,
                iter.remaining(),
            ),
            final(self).room() >= old(self).room(),
            final(self).room() >= final(self)@.len(),
            final(self).room() == extended_capacity(
                old(self).room(),
                old(self)@.len() as int,
                lower_bound as int,
                iter.remaining().len(),
                D::size(),
            ),
    {
        proof {
            use_type_invariant(&*self);
            D::lemma_size();
        }
        self.make_room(lower_bound);
        let ghost len = old(self)@.len() as int;
        let ghost capacity = self.room();
        let ghost items = iter.remaining();
        let ghost mut pushed: Seq<D> = seq![];
        let mut iter = iter;
        proof {
            assert(overwrite(old(self).initialized(), len, pushed) =~= self.initialized());
            assert(items =~= pushed + iter.remaining());
            assert(self@ =~= old(self)@ + pushed);
        }
        loop
            invariant_except_break
                items == pushed + iter.remaining(),
                drained_capacity(capacity, len, items.len(), D::size()) == drained_capacity(
                    self.room(),
                    self@.len() as int,
                    iter.remaining().len(),
                    D::size(),
                ),
            invariant
                iter.obeys_prophetic_iter_laws(),
                iter.decrease() is Some,
                layout::fits((len + items.len()) as int, D::size()),
                len == old(self)@.len() <= old(self).initialized().len(),
                self@ == old(self)@ + pushed,
                self.initialized() == overwrite(old(self).initialized(), len, pushed),
                self.room() >= old(self).room(),
            ensures
                pushed == items,
                self.room() == drained_capacity(capacity, len, items.len(), D::size()),
            decreases iter.decrease()->0,
        {
            let ghost rest = iter.remaining();
            match iter.next() {
                None => {
                    assert(pushed + rest =~= pushed);
                    break;
                },
                Some(item) => {
                    proof {
                        use_type_invariant(&*self);
                        D::lemma_size();
                        layout::lemma_fits_monotonic(
                            (self@.len() + 1) as int,
                            (len + items.len()) as int,
                            D::size(),
                        );
                    }
                    self.make_room(1);
                    self.push_unchecked(item);
                    proof {
                        assert(items =~= pushed.push(item) + iter.remaining());
                        assert(self.initialized() =~= overwrite(
                            old(self).initialized(),
                            len,
                            pushed.push(item),
                        ));
                        pushed = pushed.push(item);
                    }
                },
            }
        }
        proof {
            use_type_invariant(&*self);
        }
    }

    /// Makes room for `additional` more elements as far as a memory block can hold them.
    fn make_room(&mut self, additional: usize)
        ensures
            final(self)@ == old(self)@,
            final(self).initialized() == old(self).initialized(),
            final(self).room() == attainable_capacity(
                old(self).room(),
                (old(self)@.len() + additional) as int,
                D::size(),
            ),
            final(self).room() >= old(self).room(),
            layout::fits((old(self)@.len() + additional) as int, D::size()) ==> final(self).room()
                >= old(self)@.len() + additional,
    {
        proof {
            use_type_invariant(&*self);
            D::lemma_size();
            layout::lemma_block_size(self@.len() + additional, D::size());
            layout::lemma_usable_capacity(self@.len() + additional, D::size());
            lemma_grown_capacity(self.room(), self@.len() + additional, D::size());
        }
        if self.can_reserve(additional) {
            self.reserve(additional);
        } else if let Some(required) = self.len.checked_add(additional) {
            if layout::string_layout(required, D::data_size()).is_some() {
                self.allocate_inner(required);
            }
        }
    }

    /// Whether there is room for `additional` more elements, or room can be made.
    pub fn can_reserve(&self, additional: usize) -> (possible: bool)
        ensures
            possible == can_hold(self.room(), (self@.len() + additional) as int, D::size()),
    {
        proof {
            use_type_invariant(self);
            D::lemma_size();
            layout::lemma_block_size(self.cap as int, D::size());
            lemma_request_bound(self.room(), self@.len() + additional, D::size());
            layout::lemma_block_size(
                requested_capacity(self.room(), self@.len() + additional, D::size()),
                D::size(),
            );
        }
        if additional <= self.cap - self.len {
            return true;
        }
        match self.len.checked_add(additional) {
            None => false,
            Some(required) => layout::string_layout(
                self.next_capacity(required),
                D::data_size(),
            ).is_some(),
        }
    }

    /// Reserves capacity for at least `additional` more elements to be inserted
    /// in the given `JsStringBuilder<D>`. The collection may reserve more space to
    /// speculatively avoid frequent reallocations. After calling `reserve`,
    /// capacity will be greater than or equal to `self.len() + additional`.
    /// Does nothing if capacity is already sufficient.
    ///
    /// The content must remain small enough for a memory block.
    pub fn reserve(&mut self, additional: usize)
        requires
            can_hold(old(self).room(), (old(self)@.len() + additional) as int, D::size()),
        ensures
            final(self)@ == old(self)@,
            final(self).initialized() == old(self).initialized(),
            final(self).room() == sufficient_capacity(
                old(self).room(),
                (old(self)@.len() + additional) as int,
                D::size(),
            ),
            final(self).room() >= old(self)@.len() + additional,
    {
        proof {
            use_type_invariant(&*self);
        }
        if additional > self.cap - self.len {
            proof {
                D::lemma_size();
                lemma_request_bound(self.room(), self@.len() + additional, D::size());
                layout::lemma_block_size(
                    requested_capacity(self.room(), self@.len() + additional, D::size()),
                    D::size(),
                );
            }
            self.allocate(self.len + additional);
        }
    }

    /// Returns true if this `JsStringBuilder` has a length of zero, and false otherwise.
    pub fn is_empty(&self) -> (empty: bool)
        ensures
            empty == (self@.len() == 0),
    {
        self.len() == 0
    }

    /// Checks if all elements are ascii.
    fn is_ascii(&self) -> (ascii: bool)
        ensures
            ascii == forall|i: int| 0 <= i < self@.len() ==> (#[trigger] self@[i]).as_unit() < 0x80,
    {
        proof {
            use_type_invariant(self);
        }
        for i in 0..self.len
            invariant
                self.len <= self.data@.len(),
                forall|j: int| 0 <= j < i ==> (#[trigger] self@[j]).as_unit() < 0x80,
        {
            assert(self@[i as int] == self.data@[i as int]);
            if self.data[i].to_unit() >= 0x80 {
                return false;
            }
        }
        true
    }

    /// build `JsString` from `JsStringBuilder`
    pub fn build(self) -> (string: JsString)
        ensures
            string@ == units_of(self@),
            string.interned() == (self@.len() == 0),
            string.in_latin1() == forall|i: int|
                0 <= i < self@.len() ==> (#[trigger] self@[i]).as_unit() < 0x80,
    {
        proof {
            use_type_invariant(&self);
        }
        if self.is_empty() {
            assert(units_of(self@) =~= Seq::<u16>::empty());
            return JsString::default();
        }
        let len = self.len;
        let mut builder = self;
        // Shrink to fit the length.
        if len != builder.cap {
            proof {
                D::lemma_size();
                layout::lemma_fits_monotonic(len as int, self.cap as int, D::size());
            }
            builder.allocate_inner(len);
        }
        proof {
            use_type_invariant(&builder);
        }
        if builder.is_ascii() {
            let mut bytes: Vec<u8> = Vec::with_capacity(len);
            for i in 0..len
                invariant
                    len == builder.len <= builder.data@.len(),
                    builder@ == self@,
                    forall|j: int| 0 <= j < self@.len() ==> (#[trigger] self@[j]).as_unit() < 0x80,
                    bytes@.len() == i,
                    forall|j: int| 0 <= j < i ==> #[trigger] bytes@[j] as u16 == self@[j].as_unit(),
            {
                assert(builder@[i as int] == builder.data@[i as int]);
                bytes.push(builder.data[i].to_unit() as u8);
            }
            assert(js_str::latin1_units(bytes@) =~= units_of(self@));
            JsString::from_raw(RawJsString::from_latin1(bytes))
        } else {
            let mut units: Vec<u16> = Vec::with_capacity(len);
            for i in 0..len
                invariant
                    len == builder.len <= builder.data@.len(),
                    builder@ == self@,
                    units@.len() == i,
                    forall|j: int| 0 <= j < i ==> #[trigger] units@[j] == self@[j].as_unit(),
            {
                assert(builder@[i as int] == builder.data@[i as int]);
                units.push(builder.data[i].to_unit());
            }
            assert(units@ =~= units_of(self@));
            JsString::from_raw(RawJsString::from_utf16(units))
        }
    }
}

impl<D: JsStringData> JsStringBuilder<D> {
    /// Creates a builder that holds the items of an iterator that ends.
    ///
    /// They must be few enough for a memory block.
    pub fn from_iter<I: Iterator<Item = D>>(iter: I) -> (builder: JsStringBuilder<D>)
        requires
            iter.obeys_prophetic_iter_laws(),
            iter.decrease() is Some,
            layout::fits(iter.remaining().len() as int, D::size()),
        ensures
            builder@ == iter.remaining(),
            builder.initialized() == iter.remaining(),
            builder.room() >= builder@.len(),
            exists|lower_bound: usize|
                builder.room() == #[trigger] extended_capacity(
                    0,
                    0,
                    lower_bound as int,
                    iter.remaining().len(),
                    D::size(),
                ),
    {
        let mut builder = Self::new();
        builder.extend(iter);
        assert(builder@ =~= iter.remaining());
        assert(builder.initialized() =~= iter.remaining());
        builder
    }
}

impl<D: JsStringData> Clone for JsStringBuilder<D> {
    fn clone(&self) -> (builder: JsStringBuilder<D>)
        ensures
            builder@ == self@,
            builder.initialized() == self@,
            builder.room() == self.room(),
    {
        proof {
            use_type_invariant(self);
        }
        let mut builder = Self::with_capacity(self.cap);
        builder.extend_from_slice_unchecked(slice_subrange(self.data.as_slice(), 0, self.len));
        assert(builder@ =~= self@);
        assert(builder.initialized() =~= self@);
        builder
    }
}

impl<D: JsStringData> Default for JsStringBuilder<D> {
    fn default() -> (builder: JsStringBuilder<D>)
        ensures
            builder@ == Seq::<D>::empty(),
            builder.initialized() == Seq::<D>::empty(),
            builder.room() == 0,
    {
        Self::new()
    }
}

/// What is asked for is no less than what is required and what there was.
proof fn lemma_request_bound(capacity: int, required: int, size: int)
    requires
        0 <= capacity,
        size == 1 || size == 2,
    ensures
        requested_capacity(capacity, required, size) >= required,
        requested_capacity(capacity, required, size) >= capacity,
{
}

/// Elements can be appended one by one wherever twice as many as there will be, and eight at the
/// least, are few enough for a memory block.
pub proof fn lemma_can_push(capacity: int, len: int, count: nat, size: int)
    requires
        0 <= len <= capacity,
        size == 1 || size == 2,
        layout::fits(2 * (len + count), size),
        layout::fits(8, size),
    ensures
        can_push(capacity, len, count, size),
    decreases count,
{
    if count > 0 {
        let requested = requested_capacity(capacity, len + 1, size);
        if capacity < len + 1 {
            lemma_request_bound(capacity, len + 1, size);
            let most = if 2 * (len + count) >= 8 {
                2 * (len + count)
            } else {
                8
            };
            layout::lemma_fits_monotonic(requested, most, size);
            layout::lemma_usable_capacity(requested, size);
        }
        lemma_can_push(
            sufficient_capacity(capacity, len + 1, size),
            len + 1,
            (count - 1) as nat,
            size,
        );
    }
}

/// Appending in two steps writes what appending everything at once writes.
pub proof fn lemma_overwrite_twice<D>(items: Seq<D>, at: int, first: Seq<D>, second: Seq<D>)
    requires
        0 <= at <= items.len(),
    ensures
        overwrite(overwrite(items, at, first), (at + first.len()) as int, second) == overwrite(
            items,
            at,
            first + second,
        ),
        overwrite(items, at, first).take((at + first.len()) as int) == items.take(at) + first,
{
    assert(overwrite(overwrite(items, at, first), (at + first.len()) as int, second)
        =~= overwrite(items, at, first + second));
    assert(overwrite(items, at, first).take((at + first.len()) as int) =~= items.take(at) + first);
}

/// Growing gives room for what is required, and for twice as much as before.
pub proof fn lemma_grown_capacity(capacity: int, required: int, size: int)
    requires
        0 <= capacity,
        size == 1 || size == 2,
    ensures
        grown_capacity(capacity, required, size) >= required,
        grown_capacity(capacity, required, size) >= 2 * capacity,
        grown_capacity(capacity, required, size) * size >= 8,
{
    layout::lemma_usable_capacity(requested_capacity(capacity, required, size), size);
}

/// Where there is room for a number of elements, as after reserving it, appending that many one by
/// one is possible and leaves the capacity as it is.
pub proof fn lemma_push_within_capacity(capacity: int, len: int, count: nat, size: int)
    requires
        0 <= len,
        len + count <= capacity,
    ensures
        can_push(capacity, len, count, size),
        pushed_capacity(capacity, len, count, size) == capacity,
    decreases count,
{
    if count > 0 {
        lemma_push_within_capacity(capacity, len + 1, (count - 1) as nat, size);
    }
}

/// Appending never takes room away, and there is room for all elements afterwards.
pub proof fn lemma_pushed_capacity(capacity: int, len: int, count: nat, size: int)
    requires
        0 <= len <= capacity,
        size == 1 || size == 2,
    ensures
        pushed_capacity(capacity, len, count, size) >= capacity,
        pushed_capacity(capacity, len, count, size) >= len + count,
    decreases count,
{
    if count > 0 {
        lemma_grown_capacity(capacity, len + 1, size);
        lemma_pushed_capacity(
            sufficient_capacity(capacity, len + 1, size),
            len + 1,
            (count - 1) as nat,
            size,
        );
    }
}

/// Extending with the items of an iterator leaves the room that appending them one by one leaves,
/// after making the room that was announced, wherever both of these are possible.
pub proof fn lemma_extend_is_pushing(
    capacity: int,
    len: int,
    lower_bound: int,
    count: nat,
    size: int,
)
    requires
        can_hold(capacity, len + lower_bound, size),
        can_push(sufficient_capacity(capacity, len + lower_bound, size), len, count, size),
    ensures
        extended_capacity(capacity, len, lower_bound, count, size) == pushed_capacity(
            sufficient_capacity(capacity, len + lower_bound, size),
            len,
            count,
            size,
        ),
{
    lemma_drain_is_pushing(
        sufficient_capacity(capacity, len + lower_bound, size),
        len,
        count,
        size,
    );
}

proof fn lemma_drain_is_pushing(capacity: int, len: int, count: nat, size: int)
    requires
        can_push(capacity, len, count, size),
    ensures
        drained_capacity(capacity, len, count, size) == pushed_capacity(capacity, len, count, size),
    decreases count,
{
    if count > 0 {
        lemma_drain_is_pushing(
            sufficient_capacity(capacity, len + 1, size),
            len + 1,
            (count - 1) as nat,
            size,
        );
    }
}

/// Extending with the items of an iterator that announces how many they are leaves the room that
/// extending with a slice of them leaves.
pub proof fn lemma_extend_is_extend_from_slice(capacity: int, len: int, count: nat, size: int)
    requires
        0 <= len <= capacity,
        size == 1 || size == 2,
        can_hold(capacity, (len + count) as int, size),
    ensures
        extended_capacity(capacity, len, count as int, count, size) == sufficient_capacity(
            capacity,
            (len + count) as int,
            size,
        ),
{
    let sufficient = sufficient_capacity(capacity, (len + count) as int, size);
    lemma_grown_capacity(capacity, (len + count) as int, size);
    lemma_push_within_capacity(sufficient, len, count, size);
    lemma_extend_is_pushing(capacity, len, count as int, count, size);
}

/// A builder of code units that holds those of a string builds the string, and one of bytes builds
/// the Latin1 string with these bytes.
pub proof fn lemma_built_units(units: Seq<u16>, bytes: Seq<u8>)
    ensures
        units_of(units) == units,
        units_of(bytes) == js_str::latin1_units(bytes),
{
    assert(units_of(units) =~= units);
    assert(units_of(bytes) =~= js_str::latin1_units(bytes));
}

/// What is built after appending two stretches is their concatenation.
pub proof fn lemma_built_concat<D: JsStringData>(a: Seq<D>, b: Seq<D>)
    ensures
        units_of(a + b) == units_of(a) + units_of(b),
{
    assert(units_of(a + b) =~= units_of(a) + units_of(b));
}

} // verus!
