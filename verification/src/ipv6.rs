//! IPv6: a dissector for the payload that a link layer hands on as IPv6.
use crate::attr::Attr;
use crate::cast::Cast;
use crate::context::Context;
use crate::dissector::{Dissector, Status, Worker, WorkerBox};
use crate::error::Error;
use crate::layer::{Alias, Layer, LayerClass, LayerClassModel, LayerModel, Payload};
use crate::protocol::{field, find_payload_of, payload_of, spec_field};
use crate::slice::Slice;
use crate::token::{Interner, Token};
use std::sync::Arc;
use vstd::prelude::*;

verus! {

/// The names and classes of the IPv6 layer.
pub struct Ipv6Classes {
    /// The kind of payload that the dissector claims.
    pub payload: Token,
    pub class: Arc<LayerClass>,
}

/// The names that the IPv6 layer uses, in the order in which `Ipv6Classes::new` interns
/// them.
pub fn names() -> (r: [&'static str; 14])
    ensures
        r@ == spec_names(),
{
    [
        "ipv6",
        "_.src",
        "ipv6.src",
        "_.dst",
        "ipv6.dst",
        "ipv6.version",
        "ipv6.trafficClass",
        "ipv6.flowLabel",
        "ipv6.payloadLength",
        "ipv6.nextHeader",
        "ipv6.hopLimit",
        "@ipv6:addr",
        "ipv6.protocol",
        "@novalue",
    ]
}

pub open spec fn spec_names() -> Seq<&'static str> {
    seq![
        "ipv6",
        "_.src",
        "ipv6.src",
        "_.dst",
        "ipv6.dst",
        "ipv6.version",
        "ipv6.trafficClass",
        "ipv6.flowLabel",
        "ipv6.payloadLength",
        "ipv6.nextHeader",
        "ipv6.hopLimit",
        "@ipv6:addr",
        "ipv6.protocol",
        "@novalue",
    ]
}

/// The attributes of the header, with the tokens `t` for the names of `spec_names`.
pub open spec fn header_fields(t: Seq<Token>) -> Seq<Attr> {
    let none = Token { id: 0 };
    seq![
        spec_field(t[5], none, Cast::UInt { width: 1, shift: 4, mask: u64::MAX }, 0, 1),
        spec_field(t[6], none, Cast::UInt { width: 2, shift: 4, mask: 0xff }, 0, 2),
        spec_field(t[7], none, Cast::UInt { width: 3, shift: 0, mask: 0x0f_ffff }, 1, 4),
        spec_field(t[8], none, Cast::plain(1), 4, 6),
        spec_field(t[9], none, Cast::plain(1), 6, 7),
        spec_field(t[10], none, Cast::plain(1), 7, 8),
        spec_field(t[2], t[11], Cast::Bytes, 8, 24),
        spec_field(t[4], t[11], Cast::Bytes, 24, 40),
    ]
}

impl Ipv6Classes {
    /// The classes are those of IPv6, with the tokens `t` for the names of `spec_names`,
    /// in their order.
    pub open spec fn describes(&self, t: Seq<Token>) -> bool {
        &&& t.len() == 14
        &&& self.payload == t[0]
        &&& self.class@ == (LayerClassModel {
            id: t[0],
            aliases: seq![Alias { id: t[1], target: t[2] }, Alias { id: t[3], target: t[4] }],
            headers: header_fields(t),
        })
    }

    /// The classes of IPv6 with the tokens `t`.
    fn with_tokens(t: &Vec<Token>) -> (c: Ipv6Classes)
        requires
            t@.len() == 14,
        ensures
            c.describes(t@),
    {
        let none = Token::null();
        let mut fields: Vec<Attr> = Vec::new();
        fields.push(field(t[5], none, Cast::bits(1, 4, u64::MAX), 0, 1));
        fields.push(field(t[6], none, Cast::bits(2, 4, 0xff), 0, 2));
        fields.push(field(t[7], none, Cast::bits(3, 0, 0x0f_ffff), 1, 4));
        fields.push(field(t[8], none, Cast::uint8(), 4, 6));
        fields.push(field(t[9], none, Cast::uint8(), 6, 7));
        fields.push(field(t[10], none, Cast::uint8(), 7, 8));
        fields.push(field(t[2], t[11], Cast::Bytes, 8, 24));
        fields.push(field(t[4], t[11], Cast::Bytes, 24, 40));
        assert(fields@ =~= header_fields(t@));
        let class = LayerClass::builder(t[0]).alias(t[1], t[2]).alias(t[3], t[4]).headers(
            fields,
        ).build();
        let c = Ipv6Classes { payload: t[0], class: Arc::new(class) };
        assert(c.class@.aliases =~= seq![
            Alias { id: t@[1], target: t@[2] },
            Alias { id: t@[3], target: t@[4] },
        ]);
        c
    }

    /// The classes of IPv6, with the tokens that `names` gives to their names.
    pub fn new(names: &mut Interner) -> (c: Ipv6Classes)
        ensures
            old(names).names().is_prefix_of(final(names).names()),
            exists|t: Seq<Token>|
                Interner::all_named(final(names).names(), spec_names(), t) && c.describes(t),
    {
        let wanted = self::names();
        let tokens = names.intern_all(wanted.as_slice());
        let c = Ipv6Classes::with_tokens(&tokens);
        assert(Interner::all_named(names.names(), spec_names(), tokens@) && c.describes(tokens@));
        c
    }
}

impl Clone for Ipv6Classes {
    fn clone(&self) -> (c: Ipv6Classes)
        ensures
            c == *self,
    {
        Ipv6Classes { payload: self.payload, class: self.class.clone() }
    }
}

/// Makes of the first payload of the kind `ipv6` an IPv6 layer.
pub struct Ipv6Worker {
    pub classes: Ipv6Classes,
}

impl Ipv6Worker {
    /// The IPv6 layer on `data`.
    pub open spec fn child(&self, data: Slice) -> LayerModel {
        LayerModel {
            class: self.classes.class@,
            data,
            attrs: Seq::<Attr>::empty(),
            payloads: Seq::<Payload>::empty(),
        }
    }

    /// `r` is the worker's answer for the layer `target`: a layer without a payload of
    /// the kind is skipped; else the answer is the one layer on the payload.
    pub open spec fn answers(&self, target: LayerModel, r: Result<Status, Error>) -> bool {
        match find_payload_of(target.payloads, self.classes.payload) {
            None => r matches Ok(Status::Skip),
            Some(p) => r matches Ok(Status::Done(children)) && children@.len() == 1
                && children@[0]@ == self.child(p.data),
        }
    }
}

impl Worker for Ipv6Worker {
    open spec fn may_answer(
        &self,
        before: LayerModel,
        after: LayerModel,
        r: Result<Status, Error>,
    ) -> bool {
        after == before && self.answers(before, r)
    }

    /// Answers as `answers` says, and leaves the layer as it is.
    fn analyze(&mut self, layer: &mut Layer) -> (r: Result<Status, Error>)
        ensures
            final(layer)@ == old(layer)@,
            *final(self) == *old(self),
            old(self).answers(old(layer)@, r),
    {
        match payload_of(layer.payloads(), self.classes.payload) {
            Some(payload) => {
                let child = Layer::new(self.classes.class.clone(), payload.data()).build();
                let mut children: Vec<Layer> = Vec::new();
                children.push(child);
                Ok(Status::Done(children))
            },
            None => Ok(Status::Skip),
        }
    }
}

/// Whether `typ` names the phase of the threads that take frames in any order.
pub fn is_parallel(typ: &str) -> (b: bool)
    ensures
        b == (typ@ == "parallel"@),
{
    typ.to_owned() == "parallel".to_owned()
}

/// Makes IPv6 workers, for the phase named `parallel`.
pub struct Ipv6Dissector {
    pub classes: Ipv6Classes,
}

impl Clone for Ipv6Dissector {
    fn clone(&self) -> (d: Ipv6Dissector)
        ensures
            d == *self,
    {
        Ipv6Dissector { classes: self.classes.clone() }
    }
}

impl Dissector for Ipv6Dissector {
    open spec fn may_make(&self, typ: Seq<char>, made: bool) -> bool {
        made == (typ == "parallel"@)
    }

    fn new_worker(&self, typ: &str, ctx: &Context) -> (w: Option<WorkerBox>)
        ensures
            w is Some <==> typ@ == "parallel"@,
    {
        if is_parallel(typ) {
            Some(WorkerBox::new(Box::new(Ipv6Worker { classes: self.classes.clone() })))
        } else {
            None
        }
    }
}

} // verus!
