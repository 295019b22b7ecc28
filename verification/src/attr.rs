use crate::cast::Cast;
use crate::error::{Error, ErrorKind};
use crate::layer::Layer;
use crate::slice::Slice;
use crate::token::Token;
use crate::variant::Variant;
use std::ops::Range;
use std::sync::Arc;
use vstd::prelude::*;

verus! {

/// What many attributes have in common: a name, the name of a type, and the way from
/// bytes to a value.
#[derive(Clone, Copy, Debug)]
pub struct AttrClass {
    pub id: Token,
    pub typ: Token,
    pub cast: Cast,
}

/// Collects the parts of an `AttrClass`.
pub struct AttrClassBuilder {
    id: Token,
    typ: Token,
    cast: Cast,
}

impl AttrClass {
    /// Begins a class named `id`, of no type, whose attributes have no value.
    pub fn builder(id: Token) -> (b: AttrClassBuilder)
        ensures
            b.spec_build() == (AttrClass { id, typ: Token { id: 0 }, cast: Cast::Nil }),
    {
        AttrClassBuilder { id, typ: Token::null(), cast: Cast::Nil }
    }

    pub fn id(&self) -> (t: Token)
        ensures
            t == self.id,
    {
        self.id
    }

    pub fn typ(&self) -> (t: Token)
        ensures
            t == self.typ,
    {
        self.typ
    }

    /// The value of `data` under the cast of the class.
    pub fn cast(&self, data: &Slice) -> (r: Result<Variant, Error>)
        ensures
            r is Ok <==> self.cast.wf() && self.cast.spec_width() <= data@.len(),
            r matches Ok(v) ==> v == self.cast.spec_cast(*data),
            r matches Err(e) ==> e.spec_kind() == ErrorKind::Cast,
    {
        self.cast.cast(data)
    }
}

impl AttrClassBuilder {
    /// The class that `build` would give.
    pub closed spec fn spec_build(&self) -> AttrClass {
        AttrClass { id: self.id, typ: self.typ, cast: self.cast }
    }

    pub fn typ(self, typ: Token) -> (b: AttrClassBuilder)
        ensures
            b.spec_build() == (AttrClass { typ, ..self.spec_build() }),
    {
        AttrClassBuilder { id: self.id, typ, cast: self.cast }
    }

    pub fn cast(self, cast: Cast) -> (b: AttrClassBuilder)
        ensures
            b.spec_build() == (AttrClass { cast, ..self.spec_build() }),
    {
        AttrClassBuilder { id: self.id, typ: self.typ, cast }
    }

    pub fn build(self) -> (c: AttrClass)
        ensures
            c == self.spec_build(),
    {
        AttrClass { id: self.id, typ: self.typ, cast: self.cast }
    }
}

/// An attribute of a layer: a class and the bytes of the layer's data that hold the value.
/// The range is held as given; whether the data has these bytes is seen when the value is
/// read.
#[derive(Debug)]
pub struct Attr {
    pub class: Arc<AttrClass>,
    pub start: usize,
    pub end: usize,
}

impl Clone for Attr {
    fn clone(&self) -> (a: Attr)
        ensures
            a == *self,
    {
        Attr { class: self.class.clone(), start: self.start, end: self.end }
    }
}

/// Collects the parts of an `Attr`.
pub struct AttrBuilder {
    class: Arc<AttrClass>,
    start: usize,
    end: usize,
}

impl Attr {
    /// Begins an attribute of `class` on no bytes.
    pub fn builder(class: Arc<AttrClass>) -> (b: AttrBuilder)
        ensures
            b.spec_build() == (Attr { class, start: 0, end: 0 }),
    {
        AttrBuilder { class, start: 0, end: 0 }
    }

    /// The attribute of `class` on the bytes of `range`.
    pub fn new(class: Arc<AttrClass>, range: Range<usize>) -> (a: Attr)
        ensures
            a == (Attr { class, start: range.start, end: range.end }),
    {
        Attr { class, start: range.start, end: range.end }
    }

    pub open spec fn spec_id(&self) -> Token {
        self.class.id
    }

    #[verifier::when_used_as_spec(spec_id)]
    pub fn id(&self) -> (t: Token)
        ensures
            t == self.class.id,
    {
        self.class.id
    }

    pub fn typ(&self) -> (t: Token)
        ensures
            t == self.class.typ,
    {
        self.class.typ
    }

    pub fn range(&self) -> (r: Range<usize>)
        ensures
            r.start == self.start,
            r.end == self.end,
    {
        self.start..self.end
    }

    /// The range lies in data of `len` bytes.
    pub open spec fn fits(&self, len: nat) -> bool {
        self.start <= self.end <= len
    }

    /// The value that the attribute has in `data`, where the range lies in `data` and the
    /// cast can read its bytes.
    pub open spec fn value_in(&self, data: Slice) -> Variant {
        self.class.cast.spec_cast(data.spec_narrow(self.start, self.end))
    }

    /// The value of the attribute in `data`: a bounds error when the range does not lie in
    /// `data`, a cast error when the cast cannot read the bytes of the range.
    pub fn get(&self, data: &Slice) -> (r: Result<Variant, Error>)
        ensures
            r is Ok <==> self.fits(data@.len()) && self.class.cast.wf()
                && self.class.cast.spec_width() <= self.end - self.start,
            r matches Ok(v) ==> v == self.value_in(*data),
            r matches Err(e) ==> e.spec_kind() == (if self.fits(data@.len()) {
                ErrorKind::Cast
            } else {
                ErrorKind::Bounds
            }),
    {
        match data.narrow(self.start, self.end) {
            Some(bytes) => self.class.cast(&bytes),
            None => Err(Error::out_of_bounds()),
        }
    }

    /// The value of the attribute in the data of `layer`.
    pub fn try_get(&self, layer: &Layer) -> (r: Result<Variant, Error>)
        ensures
            r is Ok <==> self.fits(layer@.data@.len()) && self.class.cast.wf()
                && self.class.cast.spec_width() <= self.end - self.start,
            r matches Ok(v) ==> v == self.value_in(layer@.data),
            r matches Err(e) ==> e.spec_kind() == (if self.fits(layer@.data@.len()) {
                ErrorKind::Cast
            } else {
                ErrorKind::Bounds
            }),
    {
        let data = layer.data();
        self.get(&data)
    }
}

impl AttrBuilder {
    /// The attribute that `build` would give.
    pub closed spec fn spec_build(&self) -> Attr {
        Attr { class: self.class, start: self.start, end: self.end }
    }

    pub fn range(self, range: Range<usize>) -> (b: AttrBuilder)
        ensures
            b.spec_build() == (Attr { start: range.start, end: range.end, ..self.spec_build() }),
    {
        AttrBuilder { class: self.class, start: range.start, end: range.end }
    }

    pub fn build(self) -> (a: Attr)
        ensures
            a == self.spec_build(),
    {
        Attr { class: self.class, start: self.start, end: self.end }
    }
}

} // verus!
