//! Null-terminated byte strings, and null-terminated arrays of them.
use crate::array::elements;
use crate::array::lemma_elements_of_terminated;
use crate::array::lemma_elements_step;
use crate::error::Error;
use crate::error::NulError;
use crate::sentinel::ends_at;
use crate::sentinel::lemma_run_ends;
use crate::sentinel::lemma_run_len_is;
use crate::sentinel::run;
use crate::sentinel::run_len;
use core::str::Utf8Error;
use vstd::prelude::*;
use vstd::slice::slice_subrange;
use vstd::string::StrSliceExecFns;
use vstd::string::StringSliceAdditionalSpecFns;
use vstd::utf8::decode_utf8;
use vstd::utf8::encode_utf8;
use vstd::utf8::valid_utf8;

verus! {

/// The terminator of a C string: the zero byte.
pub open spec fn is_nul() -> spec_fn(u8) -> bool {
    |byte: u8| byte == 0u8
}

/// The length of the C string in `buffer`: the number of bytes before its
/// first zero byte. A buffer without a zero byte is read to its end and no
/// further.
pub open spec fn c_str_len(buffer: Seq<u8>) -> int {
    run_len(buffer, is_nul())
}

/// The content of the C string in `buffer`, without its terminator.
pub open spec fn c_str_bytes(buffer: Seq<u8>) -> Seq<u8> {
    run(buffer, is_nul())
}

/// The error with which `core::str::from_utf8` refuses `bytes`.
pub uninterp spec fn utf8_error(bytes: Seq<u8>) -> Utf8Error;

/// `core::str::from_utf8` accepts exactly the byte slices that are valid
/// UTF-8, and the string slice it returns is made of the bytes it was given.
/// The error with which it refuses the others depends on the bytes alone.
pub assume_specification[ core::str::from_utf8 ](bytes: &[u8]) -> (r: std::result::Result<
    &str,
    Utf8Error,
>)
    ensures
        r is Ok <==> valid_utf8(bytes@),
        r matches Ok(text) ==> text.spec_bytes() == bytes@,
        r matches Err(err) ==> err == utf8_error(bytes@),
;

/// What reading the C string in `buffer` as text gives: the text of its
/// content, or the error that says why the content is not UTF-8.
pub open spec fn c_str_text(buffer: Seq<u8>) -> Result<Seq<char>, Error> {
    if valid_utf8(c_str_bytes(buffer)) {
        Ok(decode_utf8(c_str_bytes(buffer)))
    } else {
        Err(Error::Utf8(utf8_error(c_str_bytes(buffer))))
    }
}

/// `r` holds the text `decoded`, or fails with the error `decoded`.
pub open spec fn holds(r: Result<String, Error>, decoded: Result<Seq<char>, Error>) -> bool {
    match decoded {
        Ok(text) => r matches Ok(string) && string@ == text,
        Err(err) => r == Err::<String, Error>(err),
    }
}

/// Measures the C string in `buffer`.
fn find_terminator(buffer: &[u8]) -> (n: usize)
    ensures
        n == c_str_len(buffer@),
        n <= buffer@.len(),
{
    let mut n: usize = 0;
    while n < buffer.len() && buffer[n] != 0
        invariant
            n <= buffer@.len(),
            forall|j: int| 0 <= j < n ==> buffer@[j] != 0u8,
        decreases buffer@.len() - n,
    {
        n += 1;
    }
    proof {
        assert(ends_at(buffer@, is_nul(), n as int));
        lemma_run_len_is(buffer@, is_nul(), n as int);
    }
    n
}

/// Reads the C string in `buffer` as text.
pub fn read_c_str(buffer: &[u8]) -> (r: Result<String, Error>)
    ensures
        holds(r, c_str_text(buffer@)),
{
    let n = find_terminator(buffer);
    let content = slice_subrange(buffer, 0, n);
    assert(content@ == c_str_bytes(buffer@));
    match core::str::from_utf8(content) {
        Ok(text) => {
            proof {
                vstd::utf8::encode_utf8_decode_utf8(text@);
            }
            Ok(text.to_owned())
        },
        Err(err) => Err(Error::from(err)),
    }
}

/// Copies bytes into a new buffer that ends with a terminator, ready to be
/// handed to C code.
///
/// Bytes that hold a zero cannot be told from their own end once they are
/// exposed: they are refused, and given back in the error.
pub fn expose_string(input: Vec<u8>) -> (r: Result<Vec<u8>, Error>)
    ensures
        match r {
            Ok(buffer) => !input@.contains(0u8) && buffer@ == input@.push(0u8),
            Err(Error::NulByte(err)) => input@.contains(0u8) && err.position == c_str_len(input@)
                && err.bytes@ == input@,
            Err(_) => false,
        },
{
    let n = find_terminator(input.as_slice());
    proof {
        lemma_run_ends(input@, is_nul());
    }
    if n < input.len() {
        assert(input@[n as int] == 0u8);
        Err(Error::from(NulError { position: n, bytes: input }))
    } else {
        let mut buffer = input;
        buffer.push(0u8);
        Ok(buffer)
    }
}

/// A helper to read C string
///
/// A buffer of a chosen size for C code to write a string into. It starts
/// out filled with zero bytes, so a reader that nobody wrote to holds the
/// empty string.
pub struct StringReader {
    buf: Vec<u8>,
}

impl View for StringReader {
    type V = Seq<u8>;

    /// The bytes of the buffer.
    closed spec fn view(&self) -> Seq<u8> {
        self.buf@
    }
}

impl StringReader {
    /// Create a new reader
    ///
    /// The buffer has room for `max_length` bytes and a terminator. No
    /// buffer can be larger than `isize::MAX` bytes.
    pub fn new(max_length: usize) -> (reader: Self)
        requires
            max_length < isize::MAX,
        ensures
            reader@ == Seq::new((max_length + 1) as nat, |i: int| 0u8),
    {
        let buf = vec![0u8; max_length + 1];
        assert(buf@ =~= Seq::new((max_length + 1) as nat, |i: int| 0u8));
        StringReader { buf }
    }

    /// Get the buffer to write to
    ///
    /// Every call hands out the same buffer, and what is written to it is
    /// what the reader holds afterwards.
    pub fn get_target(&mut self) -> (target: &mut [u8])
        ensures
            target@ == old(self)@,
            final(self)@ == final(target)@,
    {
        self.buf.as_mut_slice()
    }

    /// Get a result string
    ///
    /// A reader always has a buffer, so `Error::Null` does not occur.
    pub fn into_string(self) -> (r: Result<String, Error>)
        ensures
            holds(r, c_str_text(self@)),
    {
        match self.into_string_opt() {
            Ok(Some(string)) => Ok(string),
            Ok(None) => Err(Error::Null),
            Err(err) => Err(err),
        }
    }

    /// Get a result string or None if there is no buffer
    ///
    /// A reader always has a buffer, so `None` does not occur.
    pub fn into_string_opt(self) -> (r: Result<Option<String>, Error>)
        ensures
            match c_str_text(self@) {
                Ok(text) => r matches Ok(Some(string)) && string@ == text,
                Err(err) => r == Err::<Option<String>, Error>(err),
            },
    {
        match read_c_str(self.buf.as_slice()) {
            Ok(string) => Ok(Some(string)),
            Err(err) => Err(err),
        }
    }
}

/// Holds a zero byte, and so cannot be exposed.
pub open spec fn has_nul() -> spec_fn(Seq<u8>) -> bool {
    |bytes: Seq<u8>| bytes.contains(0u8)
}

/// The index of the first of `items` that holds a zero byte, or the number
/// of items where none does.
pub open spec fn first_refused(items: Seq<Seq<u8>>) -> int {
    run_len(items, has_nul())
}

/// The bytes of each string, in order.
pub open spec fn bytes_of(items: Seq<&str>) -> Seq<Seq<u8>> {
    items.map_values(|item: &str| item.spec_bytes())
}

/// The slots of the array that holds `items`: one exposed string for each
/// item, in order, then the null slot.
pub open spec fn exposed_slots(items: Seq<Seq<u8>>) -> Seq<Option<Seq<u8>>> {
    items.map_values(|bytes: Seq<u8>| Some(bytes.push(0u8))).push(None)
}

/// What iterating over `slots` yields: for each element up to the first null
/// slot its text, or the error that says why it is not UTF-8.
pub open spec fn texts(slots: Seq<Option<Seq<u8>>>) -> Seq<Result<Seq<char>, Error>> {
    elements(slots).map_values(|buffer: Seq<u8>| c_str_text(buffer))
}

/// What a `StringArray` is: its slots, and the two flags that say who
/// releases it.
pub struct StringArrayView {
    /// The slots in order; a slot is null or holds the buffer of a C string.
    pub slots: Seq<Option<Seq<u8>>>,
    /// Whether this wrapper is responsible for releasing the array.
    pub should_drop: bool,
    /// Whether this wrapper has released the array.
    pub has_dropped: bool,
}

impl StringArrayView {
    /// The state of a wrapper that was just made around `slots`.
    pub open spec fn raw(slots: Seq<Option<Seq<u8>>>, should_drop: bool) -> StringArrayView {
        StringArrayView { slots, should_drop, has_dropped: false }
    }

    /// Whether `free` releases the array when it is called in this state.
    pub open spec fn releases(self) -> bool {
        self.should_drop && !self.has_dropped
    }

    /// The state after a call of `free`.
    pub open spec fn freed(self) -> StringArrayView {
        StringArrayView { has_dropped: self.has_dropped || self.should_drop, ..self }
    }

    /// The state after `n` calls of `free`.
    pub open spec fn freed_times(self, n: nat) -> StringArrayView
        decreases n,
    {
        if n == 0 {
            self
        } else {
            self.freed().freed_times((n - 1) as nat)
        }
    }

    /// How many of `n` calls of `free`, one after the other, release the
    /// array.
    pub open spec fn releases_in(self, n: nat) -> nat
        decreases n,
    {
        if n == 0 {
            0
        } else {
            (if self.releases() {
                1nat
            } else {
                0nat
            }) + self.freed().releases_in((n - 1) as nat)
        }
    }
}

/// The raw form of a string array: its slots in order. A slot is null, or
/// holds the buffer of the C string that it points to.
pub type RawStringArray = Vec<Option<Vec<u8>>>;

/// A wrapper for null-terminated C string array
pub struct StringArray {
    slots: RawStringArray,
    should_drop: bool,
    has_dropped: bool,
}

impl View for StringArray {
    type V = StringArrayView;

    closed spec fn view(&self) -> StringArrayView {
        StringArrayView {
            slots: self.slots.deep_view(),
            should_drop: self.should_drop,
            has_dropped: self.has_dropped,
        }
    }
}

impl StringArray {
    /// Creates a new string array
    ///
    /// Each item is exposed in its own buffer, in order, and a null slot
    /// ends the array. The first item that holds a zero byte is refused, and
    /// no array is made.
    pub fn new(items: &[&str]) -> (r: Result<StringArray, Error>)
        ensures
            match r {
                Ok(array) => {
                    &&& first_refused(bytes_of(items@)) == items@.len()
                    &&& array@ == StringArrayView::raw(exposed_slots(bytes_of(items@)), true)
                },
                Err(Error::NulByte(err)) => {
                    let refused = first_refused(bytes_of(items@));
                    &&& refused < items@.len()
                    &&& err.bytes@ == bytes_of(items@)[refused]
                    &&& err.position == c_str_len(err.bytes@)
                },
                Err(_) => false,
            },
    {
        let ghost bytes = bytes_of(items@);
        let mut slots: RawStringArray = Vec::new();
        let mut index: usize = 0;
        while index < items.len()
            invariant
                index <= items@.len(),
                bytes == bytes_of(items@),
                forall|j: int| 0 <= j < index ==> !(#[trigger] bytes[j]).contains(0u8),
                slots.deep_view() == bytes.take(index as int).map_values(
                    |bytes: Seq<u8>| Some(bytes.push(0u8)),
                ),
            decreases items@.len() - index,
        {
            let data = items[index].as_bytes_vec();
            match expose_string(data) {
                Ok(buffer) => {
                    let ghost before = slots.deep_view();
                    slots.push(Some(buffer));
                    assert(slots.deep_view() =~~= before.push(Some(bytes[index as int].push(0u8))));
                    assert(slots.deep_view() =~= bytes.take(index + 1).map_values(
                        |bytes: Seq<u8>| Some(bytes.push(0u8)),
                    ));
                },
                Err(err) => {
                    proof {
                        assert(ends_at(bytes, has_nul(), index as int));
                        lemma_run_len_is(bytes, has_nul(), index as int);
                    }
                    return Err(err);
                },
            }
            index += 1;
        }
        proof {
            assert(ends_at(bytes, has_nul(), index as int));
            lemma_run_len_is(bytes, has_nul(), index as int);
            assert(bytes.take(index as int) =~= bytes);
        }
        let ghost before = slots.deep_view();
        slots.push(None);
        assert(slots.deep_view() =~= before.push(None));
        Ok(StringArray { slots, should_drop: true, has_dropped: false })
    }

    /// Returns the raw string array
    ///
    /// The wrapper is gone after this call and releases nothing. Whoever
    /// holds the raw array MUST see that it is released: by `from_raw` with
    /// `should_drop = true`, or by the C code that it is handed to.
    pub fn into_raw(self) -> (raw: RawStringArray)
        ensures
            raw.deep_view() == self@.slots,
    {
        self.slots
    }

    /// Constructs a string array from raw slots
    ///
    /// The array is given as a pointer is: `None` stands for NULL, and a
    /// wrapper cannot be made of it.
    ///
    /// * ptr - The raw string array
    /// * should_drop - Should data be released when `free()` is called
    pub fn from_raw(ptr: Option<RawStringArray>, should_drop: bool) -> (array: Self)
        requires
            ptr is Some,
        ensures
            array@ == StringArrayView::raw(ptr->Some_0.deep_view(), should_drop),
    {
        StringArray { slots: ptr.unwrap(), should_drop, has_dropped: false }
    }

    /// Releases the array, once
    ///
    /// Returns whether this call released it: the caller then hands the
    /// allocation back. A wrapper that does not own the array, or that has
    /// released it before, stays as it is and answers `false`.
    pub fn free(&mut self) -> (released: bool)
        ensures
            released == old(self)@.releases(),
            final(self)@ == old(self)@.freed(),
        no_unwind
    {
        if self.should_drop && !self.has_dropped {
            self.has_dropped = true;
            true
        } else {
            false
        }
    }

    /// Whether this wrapper is responsible for releasing the array.
    pub fn should_drop(&self) -> (flag: bool)
        ensures
            flag == self@.should_drop,
    {
        self.should_drop
    }

    /// Whether this wrapper has released the array.
    pub fn has_dropped(&self) -> (flag: bool)
        ensures
            flag == self@.has_dropped,
    {
        self.has_dropped
    }

    /// The slots of the array, as they are laid out.
    pub fn as_slots(&self) -> (slots: &[Option<Vec<u8>>])
        ensures
            slots.deep_view() == self@.slots,
    {
        self.slots.as_slice()
    }

    /// Walks the array from its first slot.
    pub fn into_iter(self) -> (iter: StringArrayIter)
        ensures
            iter.array() == self@,
            iter.current_index() == 0,
            iter.remaining() == texts(self@.slots),
    {
        StringArrayIter::new(self)
    }
}

/// Iterator over StringArray
pub struct StringArrayIter {
    array: StringArray,
    current_index: usize,
}

impl StringArrayIter {
    #[verifier::type_invariant]
    spec fn in_array(&self) -> bool {
        self.current_index <= self.array@.slots.len()
    }

    /// The array that the iterator owns.
    pub closed spec fn array(&self) -> StringArrayView {
        self.array@
    }

    /// The index of the slot that is read next.
    pub closed spec fn current_index(&self) -> int {
        self.current_index as int
    }

    /// What is still to come, in the order in which it comes: the text of
    /// each element, or the error for an element that is not UTF-8.
    pub closed spec fn remaining(&self) -> Seq<Result<Seq<char>, Error>> {
        texts(self.array().slots.skip(self.current_index()))
    }

    /// Starts at the first slot of the array.
    pub fn new(array: StringArray) -> (iter: Self)
        ensures
            iter.array() == array@,
            iter.current_index() == 0,
            iter.remaining() == texts(array@.slots),
    {
        assert(array@.slots.skip(0) =~= array@.slots);
        StringArrayIter { array, current_index: 0 }
    }

    /// Decodes the element of the current slot and moves on, or yields
    /// `None` at a null slot and stays there.
    ///
    /// An element that is not UTF-8 is yielded as an error, and the
    /// iterator goes on behind it.
    pub fn next(&mut self) -> (item: Option<Result<String, Error>>)
        ensures
            final(self).array() == old(self).array(),
            match item {
                Some(decoded) => {
                    &&& old(self).remaining().len() > 0
                    &&& holds(decoded, old(self).remaining()[0])
                    &&& final(self).remaining() == old(self).remaining().drop_first()
                    &&& final(self).current_index() == old(self).current_index() + 1
                },
                None => {
                    &&& old(self).remaining().len() == 0
                    &&& final(self).remaining().len() == 0
                    &&& final(self).current_index() == old(self).current_index()
                },
            },
    {
        proof {
            use_type_invariant(&*self);
            let slots = self.array().slots;
            let rest = slots.skip(self.current_index());
            lemma_elements_step(rest);
            assert(slots.len() == self.array.slots@.len());
            if rest.len() > 0 {
                assert(rest[0] == slots[self.current_index()]);
                assert(rest[0] =~~= match self.array.slots@[self.current_index()] {
                    Some(buffer) => Some(buffer@),
                    None => None,
                });
                assert(rest.drop_first() =~= slots.skip(self.current_index() + 1));
                if rest[0] is Some {
                    assert(texts(rest) =~= seq![c_str_text(rest[0]->Some_0)] + texts(
                        rest.drop_first(),
                    ));
                    assert(texts(rest).drop_first() =~= texts(rest.drop_first()));
                }
            }
        }
        if self.current_index < self.array.slots.len() {
            let decoded = match &self.array.slots[self.current_index] {
                Some(buffer) => Some(read_c_str(buffer.as_slice())),
                None => None,
            };
            if decoded.is_some() {
                self.current_index += 1;
            }
            decoded
        } else {
            None
        }
    }

    /// Releases the array that the iterator owns, once: see
    /// `StringArray::free`.
    pub fn free(&mut self) -> (released: bool)
        ensures
            released == old(self).array().releases(),
            final(self).array() == old(self).array().freed(),
            final(self).current_index() == old(self).current_index(),
            final(self).remaining() == old(self).remaining(),
    {
        proof {
            use_type_invariant(&*self);
        }
        self.array.free()
    }
}

/// Bytes without a zero, once exposed, read back as themselves, whatever
/// stands behind their terminator.
pub proof fn lemma_exposed_reads_back(bytes: Seq<u8>, behind: Seq<u8>)
    requires
        !bytes.contains(0u8),
    ensures
        c_str_len(bytes.push(0u8) + behind) == bytes.len(),
        c_str_bytes(bytes.push(0u8) + behind) == bytes,
{
    let buffer = bytes.push(0u8) + behind;
    assert forall|j: int| 0 <= j < bytes.len() implies !is_nul()(#[trigger] buffer[j]) by {
        assert(buffer[j] == bytes[j]);
    }
    assert(ends_at(buffer, is_nul(), bytes.len() as int));
    lemma_run_len_is(buffer, is_nul(), bytes.len() as int);
    assert(buffer.take(bytes.len() as int) =~= bytes);
}

/// A text whose bytes hold no zero, once exposed, reads back as itself,
/// whatever stands behind its terminator: so does a reader that the exposed
/// string was copied into.
pub proof fn lemma_exposed_text_reads_back(text: Seq<char>, behind: Seq<u8>)
    requires
        !encode_utf8(text).contains(0u8),
    ensures
        c_str_text(encode_utf8(text).push(0u8) + behind) == Ok::<Seq<char>, Error>(text),
{
    lemma_exposed_reads_back(encode_utf8(text), behind);
    vstd::utf8::encode_utf8_valid_utf8(text);
    vstd::utf8::encode_utf8_decode_utf8(text);
}

/// Round trip: iterating over the array that `StringArray::new` makes of
/// `items` yields the text of each item, in order, and then ends.
pub proof fn lemma_new_then_iterate(items: Seq<&str>)
    requires
        first_refused(bytes_of(items)) == items.len(),
    ensures
        texts(exposed_slots(bytes_of(items))) == items.map_values(
            |item: &str| Ok::<Seq<char>, Error>(item@),
        ),
{
    let bytes = bytes_of(items);
    let slots = exposed_slots(bytes);
    let exposed = bytes.map_values(|bytes: Seq<u8>| bytes.push(0u8));
    lemma_run_ends(bytes, has_nul());
    lemma_elements_of_terminated(exposed, Seq::empty());
    assert(slots =~= exposed.map_values(|buffer: Seq<u8>| Some(buffer)).push(None)
        + Seq::empty());
    assert forall|i: int| 0 <= i < items.len() implies #[trigger] texts(slots)[i] == Ok::<
        Seq<char>,
        Error,
    >(items[i]@) by {
        assert(!has_nul()(bytes[i]));
        assert(bytes[i].push(0u8) + Seq::empty() =~= bytes[i].push(0u8));
        lemma_exposed_text_reads_back(items[i]@, Seq::empty());
    }
    assert(texts(slots) =~= items.map_values(|item: &str| Ok::<Seq<char>, Error>(item@)));
}

/// However often `free` is called, the array is released once at most: once
/// if the wrapper is responsible for it and has not released it before, and
/// never otherwise. After the first call nothing changes any more.
pub proof fn lemma_released_once(state: StringArrayView, n: nat)
    ensures
        state.releases_in(n) == if n > 0 && state.releases() {
            1nat
        } else {
            0nat
        },
        n > 0 ==> state.freed_times(n) == state.freed(),
        n > 0 ==> !state.freed_times(n).releases(),
    decreases n,
{
    if n > 0 {
        let once = state.freed();
        lemma_released_once(once, (n - 1) as nat);
        assert(state.freed_times(n) == once.freed_times((n - 1) as nat));
        assert(once.freed() == once);
        assert(once.freed_times(0) == once);
    }
}

/// A wrapper that owns its array releases it in the first of any number of
/// calls of `free`, and is marked as dropped from then on: an explicit call
/// followed by the release at the end of the scope is one release, not two.
pub proof fn lemma_owner_releases_once(slots: Seq<Option<Seq<u8>>>, n: nat)
    requires
        n > 0,
    ensures
        StringArrayView::raw(slots, true).releases_in(n) == 1,
        StringArrayView::raw(slots, true).freed_times(n).has_dropped,
{
    lemma_released_once(StringArrayView::raw(slots, true), n);
}

/// A wrapper that does not own its array never releases it, and stays as it
/// is, however often `free` is called.
pub proof fn lemma_borrower_never_releases(slots: Seq<Option<Seq<u8>>>, n: nat)
    ensures
        StringArrayView::raw(slots, false).releases_in(n) == 0,
        StringArrayView::raw(slots, false).freed_times(n) == StringArrayView::raw(slots, false),
{
    lemma_released_once(StringArrayView::raw(slots, false), n);
}

/// Handing the array of `items` out with `into_raw` and taking it back with
/// `from_raw(.., true)` keeps what iterating over it yields, the text of
/// each item in order, and leaves one wrapper that releases it: the one that
/// was made last, once, however often it is asked to.
pub proof fn lemma_raw_round_trip(items: Seq<&str>, n: nat)
    requires
        first_refused(bytes_of(items)) == items.len(),
        n > 0,
    ensures
        ({
            let made = StringArrayView::raw(exposed_slots(bytes_of(items)), true);
            let taken_back = StringArrayView::raw(made.slots, true);
            &&& texts(taken_back.slots) == items.map_values(
                |item: &str| Ok::<Seq<char>, Error>(item@),
            )
            &&& taken_back.releases_in(n) == 1
        }),
{
    lemma_new_then_iterate(items);
    lemma_released_once(StringArrayView::raw(exposed_slots(bytes_of(items)), true), n);
}

} // verus!
