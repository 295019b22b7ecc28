//! TCP streams: a dissector of the serial phase that marks every TCP layer as part of a
//! stream.
use crate::attr::{Attr, AttrClass};
use crate::cast::Cast;
use crate::context::Context;
use crate::dissector::{Dissector, Status, Worker, WorkerBox};
use crate::error::Error;
use crate::layer::{Layer, LayerModel};
use crate::token::{Interner, Token};
use std::sync::Arc;
use vstd::prelude::*;

verus! {

/// The names and the class of the mark.
pub struct StreamClasses {
    /// The name of the class of the layers that are marked.
    pub tcp: Token,
    /// The class of the mark.
    pub stream: Arc<AttrClass>,
}

/// The names that the marks use, in the order in which `StreamClasses::new` interns them.
pub fn names() -> (r: [&'static str; 3])
    ensures
        r@ == spec_names(),
{
    ["tcp", "tcp.stream", "@novalue"]
}

pub open spec fn spec_names() -> Seq<&'static str> {
    seq!["tcp", "tcp.stream", "@novalue"]
}

impl StreamClasses {
    /// The classes are those of the mark, with the tokens `t` for the names of
    /// `spec_names`, in their order.
    pub open spec fn describes(&self, t: Seq<Token>) -> bool {
        &&& t.len() == 3
        &&& self.tcp == t[0]
        &&& *self.stream == (AttrClass { id: t[1], typ: t[2], cast: Cast::plain(1) })
    }

    /// The classes of the mark, with the tokens that `names` gives to their names.
    pub fn new(names: &mut Interner) -> (c: StreamClasses)
        ensures
            old(names).names().is_prefix_of(final(names).names()),
            exists|t: Seq<Token>|
                Interner::all_named(final(names).names(), spec_names(), t) && c.describes(t),
    {
        let wanted = self::names();
        let t = names.intern_all(wanted.as_slice());
        let c = StreamClasses {
            tcp: t[0],
            stream: Arc::new(AttrClass::builder(t[1]).typ(t[2]).cast(Cast::uint8()).build()),
        };
        assert(Interner::all_named(names.names(), spec_names(), t@) && c.describes(t@));
        c
    }
}

impl Clone for StreamClasses {
    fn clone(&self) -> (c: StreamClasses)
        ensures
            c == *self,
    {
        StreamClasses { tcp: self.tcp, stream: self.stream.clone() }
    }
}

/// Marks TCP layers.
pub struct TcpStreamWorker {
    pub classes: StreamClasses,
}

impl TcpStreamWorker {
    /// The mark: an attribute of the stream class on no bytes.
    pub open spec fn mark(&self) -> Attr {
        Attr { class: self.classes.stream, start: 0, end: 0 }
    }
}

impl TcpStreamWorker {
    /// `r` is the worker's answer for the layer `before`, which it leaves as `after`.
    pub open spec fn answers(
        &self,
        before: LayerModel,
        after: LayerModel,
        r: Result<Status, Error>,
    ) -> bool {
        if before.class.id == self.classes.tcp {
            &&& r matches Ok(Status::Done(children)) && children@.len() == 0
            &&& after == (LayerModel { attrs: before.attrs.push(self.mark()), ..before })
        } else {
            &&& r matches Ok(Status::Skip)
            &&& after == before
        }
    }
}

impl Worker for TcpStreamWorker {
    open spec fn may_answer(
        &self,
        before: LayerModel,
        after: LayerModel,
        r: Result<Status, Error>,
    ) -> bool {
        self.answers(before, after, r)
    }

    /// Claims a TCP layer, adds the mark to it and answers no children; skips any other
    /// layer and leaves it as it is.
    fn analyze(&mut self, layer: &mut Layer) -> (r: Result<Status, Error>)
        ensures
            *final(self) == *old(self),
            old(self).answers(old(layer)@, final(layer)@, r),
    {
        if layer.id() == self.classes.tcp {
            layer.add_attr(Attr::new(self.classes.stream.clone(), 0..0));
            Ok(Status::Done(Vec::new()))
        } else {
            Ok(Status::Skip)
        }
    }
}

/// Whether `typ` names the phase of the one thread that takes frames in their order.
pub fn is_serial(typ: &str) -> (b: bool)
    ensures
        b == (typ@ == "serial"@),
{
    typ.to_owned() == "serial".to_owned()
}

/// Makes workers that mark TCP layers, for the phase named `serial`.
pub struct TcpStreamDissector {
    pub classes: StreamClasses,
}

impl Clone for TcpStreamDissector {
    fn clone(&self) -> (d: TcpStreamDissector)
        ensures
            d == *self,
    {
        TcpStreamDissector { classes: self.classes.clone() }
    }
}

impl Dissector for TcpStreamDissector {
    open spec fn may_make(&self, typ: Seq<char>, made: bool) -> bool {
        made == (typ == "serial"@)
    }

    fn new_worker(&self, typ: &str, ctx: &Context) -> (w: Option<WorkerBox>)
        ensures
            w is Some <==> typ@ == "serial"@,
    {
        if is_serial(typ) {
            Some(WorkerBox::new(Box::new(TcpStreamWorker { classes: self.classes.clone() })))
        } else {
            None
        }
    }
}

} // verus!
