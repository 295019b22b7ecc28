use crate::error::{Error, ErrorKind};
use std::ops::Range;
use vstd::prelude::*;
use vstd::std_specs::cmp::PartialEqSpecImpl;
use vstd::std_specs::convert::FromSpecImpl;

verus! {

/// `std::ops::RangeFrom`, the type of `a..`: a struct with the one public field `start`.
/// Nothing is claimed of it; Verus reads the field.
#[verifier::external_type_specification]
#[verifier::reject_recursive_types(Idx)]
pub struct ExRangeFrom<Idx>(std::ops::RangeFrom<Idx>);

/// `std::ops::RangeTo`, the type of `..b`: a struct with the one public field `end`.
/// Nothing is claimed of it; Verus reads the field.
#[verifier::external_type_specification]
#[verifier::reject_recursive_types(Idx)]
pub struct ExRangeTo<Idx>(std::ops::RangeTo<Idx>);

/// `std::ops::RangeToInclusive`, the type of `..=b`: a struct with the one public field
/// `end`. Nothing is claimed of it; Verus reads the field.
#[verifier::external_type_specification]
#[verifier::reject_recursive_types(Idx)]
pub struct ExRangeToInclusive<Idx>(std::ops::RangeToInclusive<Idx>);

/// `std::ops::RangeFull`, the type of `..`: a struct without fields.
#[verifier::external_type_specification]
pub struct ExRangeFull(std::ops::RangeFull);

/// A window on a buffer of bytes that lives as long as the process. A window is made by
/// taking a whole buffer or by narrowing another window; neither copies a byte.
#[derive(Clone, Copy, Debug)]
pub struct Slice {
    base: &'static [u8],
    start: usize,
    end: usize,
}

/// Indexing that fails instead of cutting short.
pub trait SliceIndex<T> {
    type Output;

    fn get(&self, index: T) -> Result<Self::Output, Error>;
}

impl View for Slice {
    type V = Seq<u8>;

    /// The bytes seen through the window.
    open spec fn view(&self) -> Seq<u8> {
        self.buffer().subrange(self.offset() as int, (self.offset() + self.spec_len()) as int)
    }
}

impl Slice {
    #[verifier::type_invariant]
    closed spec fn inv(&self) -> bool {
        self.start <= self.end <= self.base@.len()
    }

    /// The bytes of the whole buffer that the window looks at. Two buffers that hold the
    /// same bytes are one and the same here; `shares` tells them apart as the program
    /// runs.
    pub closed spec fn buffer(&self) -> Seq<u8> {
        self.base@
    }

    /// Where in the buffer the window begins.
    pub closed spec fn offset(&self) -> nat {
        self.start as nat
    }

    /// How many bytes the window shows.
    pub closed spec fn spec_len(&self) -> nat {
        (self.end - self.start) as nat
    }

    /// The window lies in its buffer. Every window that the program holds does.
    pub open spec fn wf(&self) -> bool {
        self.offset() + self.spec_len() <= self.buffer().len()
    }

    /// `self` shows bytes of the buffer of `outer`, and none that `outer` does not show.
    pub open spec fn within(&self, outer: Slice) -> bool {
        &&& self.buffer() == outer.buffer()
        &&& outer.offset() <= self.offset()
        &&& self.offset() + self.spec_len() <= outer.offset() + outer.spec_len()
    }

    /// `self` looks at the buffer that `other` looks at.
    pub open spec fn shares_buffer(&self, other: Slice) -> bool {
        self.buffer() == other.buffer()
    }

    /// The window on all of `data`.
    pub closed spec fn whole(data: &'static [u8]) -> Slice {
        Slice { base: data, start: 0, end: data@.len() as usize }
    }

    /// The empty window.
    pub fn new() -> (s: Slice)
        ensures
            s.wf(),
            s.spec_len() == 0,
            s@ == Seq::<u8>::empty(),
    {
        let base: &'static [u8] = &[];
        let s = Slice { base, start: 0, end: 0 };
        assert(s@ =~= Seq::<u8>::empty());
        s
    }

    pub fn len(&self) -> (n: usize)
        ensures
            n == self.spec_len(),
            n == self@.len(),
            self.wf(),
    {
        proof {
            use_type_invariant(self);
        }
        self.end - self.start
    }

    pub fn is_empty(&self) -> (b: bool)
        ensures
            b == (self@.len() == 0),
    {
        self.len() == 0
    }

    /// The place of the first byte of the window in its buffer.
    pub fn start(&self) -> (n: usize)
        ensures
            n == self.offset(),
            self.wf(),
    {
        proof {
            use_type_invariant(self);
        }
        self.start
    }

    /// The window on all of `data`, which is given up for good and never freed.
    pub fn from_vec(data: Vec<u8>) -> (s: Slice)
        ensures
            s.wf(),
            s.buffer() == data@,
            s.offset() == 0,
            s@ == data@,
    {
        let base = leak(data);
        let s = Slice { base, start: 0, end: base.len() };
        assert(s@ =~= data@);
        s
    }

    /// The byte at `index`, where the window has one.
    pub fn at(&self, index: usize) -> (r: Option<u8>)
        ensures
            r == (if index < self@.len() {
                Some(self@[index as int])
            } else {
                None
            }),
    {
        proof {
            use_type_invariant(self);
        }
        if index < self.end - self.start {
            Some(self.base[self.start + index])
        } else {
            None
        }
    }

    /// The window from `start` up to `end`, counted in `self`.
    pub closed spec fn spec_narrow(&self, start: usize, end: usize) -> Slice {
        Slice {
            base: self.base,
            start: (self.start + start) as usize,
            end: (self.start + end) as usize,
        }
    }

    /// The window from `start` up to `end`, counted in `self`; absent unless
    /// `start <= end <= self.len()`.
    pub fn narrow(&self, start: usize, end: usize) -> (r: Option<Slice>)
        ensures
            r is Some <==> start <= end <= self@.len(),
            r matches Some(s) ==> {
                &&& s == self.spec_narrow(start, end)
                &&& s.wf()
                &&& s.within(*self)
                &&& s.offset() == self.offset() + start
                &&& s.spec_len() == end - start
                &&& s@ == self@.subrange(start as int, end as int)
            },
    {
        proof {
            use_type_invariant(self);
        }
        if start <= end && end <= self.end - self.start {
            let s = Slice { base: self.base, start: self.start + start, end: self.start + end };
            assert(s@ =~= self@.subrange(start as int, end as int));
            Some(s)
        } else {
            None
        }
    }

    /// The window from `start` to the end of `self`; absent unless `start <= self.len()`.
    pub fn skip(&self, start: usize) -> (r: Option<Slice>)
        ensures
            r is Some <==> start <= self@.len(),
            r matches Some(s) ==> {
                &&& s == self.spec_narrow(start, self@.len() as usize)
                &&& s.wf()
                &&& s.within(*self)
                &&& s.offset() == self.offset() + start
                &&& s.spec_len() == self@.len() - start
                &&& s@ == self@.skip(start as int)
            },
    {
        let n = self.len();
        self.narrow(start, n)
    }

    /// Whether both windows are known to look at one and the same buffer. Two windows on
    /// equal bytes in two places do not.
    pub fn shares(&self, other: &Slice) -> (b: bool)
        ensures
            b ==> self.shares_buffer(*other),
    {
        same_memory(self.base, other.base)
    }

    /// The bytes of the window, borrowed from its buffer.
    pub fn as_bytes(&self) -> (r: &'static [u8])
        ensures
            r@ == self@,
    {
        proof {
            use_type_invariant(self);
        }
        vstd::slice::slice_subrange(self.base, self.start, self.end)
    }

    /// The bytes of the window, copied out.
    pub fn to_vec(&self) -> (v: Vec<u8>)
        ensures
            v@ == self@,
    {
        proof {
            use_type_invariant(self);
        }
        let mut v: Vec<u8> = Vec::new();
        let mut i: usize = self.start;
        while i < self.end
            invariant
                self.start <= i <= self.end <= self.base@.len(),
                v@ == self.base@.subrange(self.start as int, i as int),
            decreases self.end - i,
        {
            v.push(self.base[i]);
            assert(v@ =~= self.base@.subrange(self.start as int, i + 1));
            i = i + 1;
        }
        v
    }
}

/// `Vec::leak` of std: gives up the vector's memory for good and hands back its contents,
/// byte for byte, as a slice that is never freed.
#[verifier::external_body]
fn leak(data: Vec<u8>) -> (r: &'static [u8])
    ensures
        r@ == data@,
{
    data.leak()
}

/// `std::ptr::eq` on two slices: whether they begin at the same address and have the same
/// length. Slices for which this holds are the same bytes; equal bytes in two places give
/// false.
#[verifier::external_body]
fn same_memory(a: &[u8], b: &[u8]) -> (r: bool)
    ensures
        r ==> a@ == b@,
{
    std::ptr::eq(a, b)
}

impl SliceIndex<usize> for Slice {
    type Output = u8;

    /// The byte at `index`; a bounds error when the window has none there.
    fn get(&self, index: usize) -> (r: Result<u8, Error>)
        ensures
            r is Ok <==> index < self@.len(),
            r matches Ok(b) ==> b == self@[index as int],
            r matches Err(e) ==> e.spec_kind() == ErrorKind::Bounds,
    {
        match self.at(index) {
            Some(b) => Ok(b),
            None => Err(Error::out_of_bounds()),
        }
    }
}

impl SliceIndex<Range<usize>> for Slice {
    type Output = Slice;

    /// The window on `index`, counted in `self`; a bounds error unless
    /// `index.start <= index.end <= self.len()`.
    fn get(&self, index: Range<usize>) -> (r: Result<Slice, Error>)
        ensures
            r is Ok <==> index.start <= index.end <= self@.len(),
            r matches Ok(s) ==> {
                &&& s == self.spec_narrow(index.start, index.end)
                &&& s.wf()
                &&& s.within(*self)
                &&& s.offset() == self.offset() + index.start
                &&& s@ == self@.subrange(index.start as int, index.end as int)
            },
            r matches Err(e) ==> e.spec_kind() == ErrorKind::Bounds,
    {
        match self.narrow(index.start, index.end) {
            Some(s) => Ok(s),
            None => Err(Error::out_of_bounds()),
        }
    }
}

impl SliceIndex<std::ops::RangeFrom<usize>> for Slice {
    type Output = Slice;

    /// The window from `index.start` to the end of `self`; a bounds error unless
    /// `index.start <= self.len()`.
    fn get(&self, index: std::ops::RangeFrom<usize>) -> (r: Result<Slice, Error>)
        ensures
            r is Ok <==> index.start <= self@.len(),
            r matches Ok(s) ==> {
                &&& s == self.spec_narrow(index.start, self@.len() as usize)
                &&& s.wf()
                &&& s.within(*self)
                &&& s@ == self@.skip(index.start as int)
            },
            r matches Err(e) ==> e.spec_kind() == ErrorKind::Bounds,
    {
        match self.skip(index.start) {
            Some(s) => Ok(s),
            None => Err(Error::out_of_bounds()),
        }
    }
}

impl SliceIndex<std::ops::RangeTo<usize>> for Slice {
    type Output = Slice;

    /// The window on the first `index.end` bytes of `self`; a bounds error unless
    /// `index.end <= self.len()`.
    fn get(&self, index: std::ops::RangeTo<usize>) -> (r: Result<Slice, Error>)
        ensures
            r is Ok <==> index.end <= self@.len(),
            r matches Ok(s) ==> {
                &&& s == self.spec_narrow(0, index.end)
                &&& s.wf()
                &&& s.within(*self)
                &&& s@ == self@.take(index.end as int)
            },
            r matches Err(e) ==> e.spec_kind() == ErrorKind::Bounds,
    {
        match self.narrow(0, index.end) {
            Some(s) => Ok(s),
            None => Err(Error::out_of_bounds()),
        }
    }
}

impl SliceIndex<std::ops::RangeToInclusive<usize>> for Slice {
    type Output = Slice;

    /// The window on the bytes of `self` up to and with the one at `index.end`; a bounds
    /// error unless `self` has a byte there.
    fn get(&self, index: std::ops::RangeToInclusive<usize>) -> (r: Result<Slice, Error>)
        ensures
            r is Ok <==> index.end < self@.len(),
            r matches Ok(s) ==> {
                &&& s == self.spec_narrow(0, (index.end + 1) as usize)
                &&& s.wf()
                &&& s.within(*self)
                &&& s@ == self@.take(index.end + 1)
            },
            r matches Err(e) ==> e.spec_kind() == ErrorKind::Bounds,
    {
        if index.end < self.len() {
            match self.narrow(0, index.end + 1) {
                Some(s) => Ok(s),
                None => Err(Error::out_of_bounds()),
            }
        } else {
            Err(Error::out_of_bounds())
        }
    }
}

impl SliceIndex<std::ops::RangeFull> for Slice {
    type Output = Slice;

    /// The window itself.
    fn get(&self, index: std::ops::RangeFull) -> (r: Result<Slice, Error>)
        ensures
            r == Ok::<Slice, Error>(*self),
    {
        Ok(*self)
    }
}

impl PartialEq for Slice {
    /// Two windows are equal when they show the same bytes, wherever they lie.
    fn eq(&self, other: &Slice) -> (r: bool) {
        proof {
            use_type_invariant(self);
            use_type_invariant(other);
        }
        if self.end - self.start != other.end - other.start {
            assert(self@.len() != other@.len());
            return false;
        }
        let n = self.end - self.start;
        let mut i: usize = 0;
        while i < n
            invariant
                i <= n,
                n == self.end - self.start,
                n == other.end - other.start,
                self.start <= self.end <= self.base@.len(),
                other.start <= other.end <= other.base@.len(),
                forall|j: int| 0 <= j < i ==> self@[j] == other@[j],
            decreases n - i,
        {
            if self.base[self.start + i] != other.base[other.start + i] {
                assert(self@[i as int] != other@[i as int]);
                return false;
            }
            i = i + 1;
        }
        assert(self@ =~= other@);
        true
    }
}

impl PartialEqSpecImpl for Slice {
    open spec fn obeys_eq_spec() -> bool {
        true
    }

    open spec fn eq_spec(&self, other: &Slice) -> bool {
        self@ == other@
    }
}

impl Eq for Slice {

}

impl From<&'static [u8]> for Slice {
    /// The window on all of `data`.
    fn from(data: &'static [u8]) -> (s: Slice) {
        Slice { base: data, start: 0, end: data.len() }
    }
}

impl FromSpecImpl<&'static [u8]> for Slice {
    open spec fn obeys_from_spec() -> bool {
        true
    }

    open spec fn from_spec(data: &'static [u8]) -> Slice {
        Slice::whole(data)
    }
}

/// What a narrowed window shows, for bounds that fit.
pub proof fn lemma_narrow(s: Slice, start: usize, end: usize)
    requires
        s.wf(),
        start <= end <= s@.len(),
    ensures
        s.spec_narrow(start, end).wf(),
        s.spec_narrow(start, end).within(s),
        s.spec_narrow(start, end).offset() == s.offset() + start,
        s.spec_narrow(start, end).spec_len() == end - start,
        s.spec_narrow(start, end)@ == s@.subrange(start as int, end as int),
{
    vstd::slice::axiom_spec_len(s.base);
    assert(s.spec_narrow(start, end)@ =~= s@.subrange(start as int, end as int));
}

/// A borrowed run of items with its length.
pub struct SafeSlice<'a, T> {
    data: &'a [T],
}

impl<'a, T> SafeSlice<'a, T> {
    pub closed spec fn view(&self) -> Seq<T> {
        self.data@
    }

    pub fn new(data: &'a [T]) -> (s: SafeSlice<'a, T>)
        ensures
            s.view() == data@,
    {
        SafeSlice { data }
    }

    pub fn as_slice(&self) -> (r: &[T])
        ensures
            r@ == self.view(),
    {
        self.data
    }
}

} // verus!
