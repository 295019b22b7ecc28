//! IPv4: decodes the payload that a link layer hands on as IPv4.
use crate::attr::{Attr, AttrClass};
use crate::cast::Cast;
use crate::context::Context;
use crate::decoder::{Decoder, DecoderBox, ExecType, Status, Worker, WorkerBox};
use crate::error::{Error, ErrorKind};
use crate::layer::{Alias, Layer, LayerClass, LayerClassModel, LayerModel, LayerProxy, LayerStack, Payload};
use crate::protocol::{
    copy, field, find_payload, find_protocol, lookup, mark, payload_named, protocol, spec_field,
    Protocol,
};
use crate::slice::Slice;
use crate::token::{Interner, Token};
use std::sync::Arc;
use vstd::prelude::*;

verus! {

/// The length of a header without options.
pub const HEADER_LENGTH: usize = 20;

/// The place of the byte that names the protocol of the payload.
pub const PROTOCOL_AT: usize = 9;

/// The names and classes of the IPv4 layer.
pub struct Ipv4Classes {
    /// The name of the payload that the decoder claims.
    pub payload: Token,
    pub class: Arc<LayerClass>,
    /// The class of the attribute that holds the number of the protocol.
    pub protocol: Arc<AttrClass>,
    pub types: Vec<Protocol>,
}

/// The names that the IPv4 layer uses, in the order in which `Ipv4Classes::new` interns
/// them.
pub fn names() -> (r: [&'static str; 31])
    ensures
        r@ == spec_names(),
{
    [
        "@data:ipv4",
        "ipv4",
        "_.src",
        "ipv4.src",
        "_.dst",
        "ipv4.dst",
        "ipv4.version",
        "ipv4.headerLength",
        "ipv4.tos",
        "ipv4.totalLength",
        "ipv4.id",
        "ipv4.flags",
        "@flags",
        "ipv4.flags.reserved",
        "ipv4.flags.dontFragment",
        "ipv4.flags.moreFragments",
        "ipv4.fragmentOffset",
        "ipv4.ttl",
        "ipv4.protocol",
        "@enum",
        "ipv4.checksum",
        "@ipv4:addr",
        "@novalue",
        "@data:icmp",
        "ipv4.protocol.icmp",
        "@data:igmp",
        "ipv4.protocol.igmp",
        "@data:tcp",
        "ipv4.protocol.tcp",
        "@data:udp",
        "ipv4.protocol.udp",
    ]
}

pub open spec fn spec_names() -> Seq<&'static str> {
    seq![
        "@data:ipv4",
        "ipv4",
        "_.src",
        "ipv4.src",
        "_.dst",
        "ipv4.dst",
        "ipv4.version",
        "ipv4.headerLength",
        "ipv4.tos",
        "ipv4.totalLength",
        "ipv4.id",
        "ipv4.flags",
        "@flags",
        "ipv4.flags.reserved",
        "ipv4.flags.dontFragment",
        "ipv4.flags.moreFragments",
        "ipv4.fragmentOffset",
        "ipv4.ttl",
        "ipv4.protocol",
        "@enum",
        "ipv4.checksum",
        "@ipv4:addr",
        "@novalue",
        "@data:icmp",
        "ipv4.protocol.icmp",
        "@data:igmp",
        "ipv4.protocol.igmp",
        "@data:tcp",
        "ipv4.protocol.tcp",
        "@data:udp",
        "ipv4.protocol.udp",
    ]
}

/// The attributes of the header, with the tokens `t` for the names of `spec_names`.
pub open spec fn header_fields(t: Seq<Token>) -> Seq<Attr> {
    let none = Token { id: 0 };
    seq![
        spec_field(t[6], none, Cast::UInt { width: 1, shift: 4, mask: u64::MAX }, 0, 1),
        spec_field(t[7], none, Cast::UInt { width: 1, shift: 0, mask: 0x0f }, 0, 1),
        spec_field(t[8], none, Cast::plain(1), 1, 2),
        spec_field(t[9], none, Cast::plain(2), 2, 4),
        spec_field(t[10], none, Cast::plain(2), 4, 6),
        spec_field(t[11], t[12], Cast::UInt { width: 1, shift: 5, mask: 0x07 }, 6, 7),
        spec_field(t[13], none, Cast::Flag { width: 1, mask: 0x80 }, 6, 7),
        spec_field(t[14], none, Cast::Flag { width: 1, mask: 0x40 }, 6, 7),
        spec_field(t[15], none, Cast::Flag { width: 1, mask: 0x20 }, 6, 7),
        spec_field(t[16], none, Cast::UInt { width: 2, shift: 0, mask: 0x1fff }, 6, 8),
        spec_field(t[17], none, Cast::plain(1), 8, 9),
        spec_field(t[18], t[19], Cast::plain(1), 9, 10),
        spec_field(t[20], none, Cast::plain(2), 10, 12),
        spec_field(t[3], t[21], Cast::Bytes, 12, 16),
        spec_field(t[5], t[21], Cast::Bytes, 16, 20),
    ]
}

impl Ipv4Classes {
    /// The classes are those of IPv4, with the tokens `t` for the names of `spec_names`,
    /// in their order.
    pub open spec fn describes(&self, t: Seq<Token>) -> bool {
        &&& t.len() == 31
        &&& self.payload == t[0]
        &&& self.class@ == (LayerClassModel {
            id: t[1],
            aliases: seq![Alias { id: t[2], target: t[3] }, Alias { id: t[4], target: t[5] }],
            headers: header_fields(t),
        })
        &&& *self.protocol == (AttrClass { id: t[18], typ: t[19], cast: Cast::plain(1) })
        &&& self.types@ == seq![
            Protocol { number: 0x01, payload: t[23], class: Arc::new(mark(t[24], t[22])) },
            Protocol { number: 0x02, payload: t[25], class: Arc::new(mark(t[26], t[22])) },
            Protocol { number: 0x06, payload: t[27], class: Arc::new(mark(t[28], t[22])) },
            Protocol { number: 0x11, payload: t[29], class: Arc::new(mark(t[30], t[22])) },
        ]
    }

    /// The classes of IPv4 with the tokens `t`.
    fn with_tokens(t: &Vec<Token>) -> (c: Ipv4Classes)
        requires
            t@.len() == 31,
        ensures
            c.describes(t@),
    {
        let none = Token::null();
        let mut fields: Vec<Attr> = Vec::new();
        fields.push(field(t[6], none, Cast::bits(1, 4, u64::MAX), 0, 1));
        fields.push(field(t[7], none, Cast::bits(1, 0, 0x0f), 0, 1));
        fields.push(field(t[8], none, Cast::uint8(), 1, 2));
        fields.push(field(t[9], none, Cast::uint16be(), 2, 4));
        fields.push(field(t[10], none, Cast::uint16be(), 4, 6));
        fields.push(field(t[11], t[12], Cast::bits(1, 5, 0x07), 6, 7));
        fields.push(field(t[13], none, Cast::flag(1, 0x80), 6, 7));
        fields.push(field(t[14], none, Cast::flag(1, 0x40), 6, 7));
        fields.push(field(t[15], none, Cast::flag(1, 0x20), 6, 7));
        fields.push(field(t[16], none, Cast::bits(2, 0, 0x1fff), 6, 8));
        fields.push(field(t[17], none, Cast::uint8(), 8, 9));
        fields.push(field(t[18], t[19], Cast::uint8(), 9, 10));
        fields.push(field(t[20], none, Cast::uint16be(), 10, 12));
        fields.push(field(t[3], t[21], Cast::Bytes, 12, 16));
        fields.push(field(t[5], t[21], Cast::Bytes, 16, 20));
        assert(fields@ =~= header_fields(t@));
        let class = LayerClass::builder(t[1]).alias(t[2], t[3]).alias(t[4], t[5]).headers(
            fields,
        ).build();
        let mut types: Vec<Protocol> = Vec::new();
        types.push(protocol(0x01, t[23], t[24], t[22]));
        types.push(protocol(0x02, t[25], t[26], t[22]));
        types.push(protocol(0x06, t[27], t[28], t[22]));
        types.push(protocol(0x11, t[29], t[30], t[22]));
        let c = Ipv4Classes {
            payload: t[0],
            class: Arc::new(class),
            protocol: Arc::new(AttrClass::builder(t[18]).typ(t[19]).cast(Cast::uint8()).build()),
            types,
        };
        assert(c.class@.aliases =~= seq![
            Alias { id: t@[2], target: t@[3] },
            Alias { id: t@[4], target: t@[5] },
        ]);
        assert(c.class@.headers =~= header_fields(t@));
        assert(c.types@ =~= seq![
            Protocol { number: 0x01, payload: t@[23], class: Arc::new(mark(t@[24], t@[22])) },
            Protocol { number: 0x02, payload: t@[25], class: Arc::new(mark(t@[26], t@[22])) },
            Protocol { number: 0x06, payload: t@[27], class: Arc::new(mark(t@[28], t@[22])) },
            Protocol { number: 0x11, payload: t@[29], class: Arc::new(mark(t@[30], t@[22])) },
        ]);
        c
    }

    /// The classes of IPv4, with the tokens that `names` gives to their names.
    pub fn new(names: &mut Interner) -> (c: Ipv4Classes)
        ensures
            old(names).names().is_prefix_of(final(names).names()),
            exists|t: Seq<Token>|
                Interner::all_named(final(names).names(), spec_names(), t) && c.describes(t),
    {
        let wanted = self::names();
        let tokens = names.intern_all(wanted.as_slice());
        let c = Ipv4Classes::with_tokens(&tokens);
        assert(Interner::all_named(names.names(), spec_names(), tokens@) && c.describes(tokens@));
        c
    }
}

impl Ipv4Classes {
    /// These classes are the classes `other`, name for name.
    pub open spec fn like(&self, other: Ipv4Classes) -> bool {
        &&& other.payload == self.payload
        &&& other.class == self.class
        &&& other.protocol == self.protocol
        &&& other.types@ == self.types@
    }
}

impl Clone for Ipv4Classes {
    fn clone(&self) -> (c: Ipv4Classes)
        ensures
            self.like(c),
    {
        Ipv4Classes {
            payload: self.payload,
            class: self.class.clone(),
            protocol: self.protocol.clone(),
            types: copy(&self.types),
        }
    }
}

/// Decodes the first payload named `@data:ipv4` of a layer into an IPv4 layer.
pub struct Ipv4Worker {
    classes: Ipv4Classes,
}

impl Ipv4Worker {
    #[verifier::type_invariant]
    closed spec fn inv(&self) -> bool {
        self.classes.protocol.cast == Cast::plain(1)
    }

    /// The names and classes that the worker works with.
    pub closed spec fn classes(&self) -> Ipv4Classes {
        self.classes
    }

    /// A worker with the classes `classes`; none where the protocol is not read as a
    /// number of one byte.
    pub fn new(classes: Ipv4Classes) -> (r: Option<Ipv4Worker>)
        ensures
            r is Some <==> classes.protocol.cast == Cast::plain(1),
            r matches Some(w) ==> w.classes() == classes,
    {
        if classes.protocol.cast == Cast::uint8() {
            Some(Ipv4Worker { classes })
        } else {
            None
        }
    }

    /// The IPv4 layer on `data` that carries the protocol `carried`: it holds the mark of
    /// the protocol and, as its payload, what follows the header.
    pub open spec fn carrying_child(&self, data: Slice, carried: Protocol) -> LayerModel {
        LayerModel {
            class: self.classes().class@,
            data,
            attrs: seq![Attr { class: carried.class, start: PROTOCOL_AT, end: 10 }],
            payloads: seq![
                Payload {
                    data: data.spec_narrow(HEADER_LENGTH, data@.len() as usize),
                    id: carried.payload,
                    typ: Token { id: 0 },
                },
            ],
        }
    }

    /// `r` is the worker's answer for the layer `target`: a layer without an IPv4 payload
    /// is skipped; a payload too short for the byte of the protocol, or too short for the
    /// header where the protocol is known, is a bounds error; a payload that carries no
    /// known protocol is claimed, with no child, since nothing is left to decode; else the
    /// answer is the one layer on the payload.
    pub open spec fn answers(&self, target: LayerModel, r: Result<Status, Error>) -> bool {
        match find_payload(target.payloads, self.classes().payload) {
            None => r matches Ok(Status::Skip),
            Some(p) => {
                if p.data@.len() <= PROTOCOL_AT {
                    r matches Err(e) && e.spec_kind() == ErrorKind::Bounds
                } else {
                    match find_protocol(self.classes().types@, p.data@[PROTOCOL_AT as int] as u64) {
                        None => r matches Ok(Status::Done(children)) && children@.len() == 0,
                        Some(carried) => {
                            if p.data@.len() < HEADER_LENGTH {
                                r matches Err(e) && e.spec_kind() == ErrorKind::Bounds
                            } else {
                                r matches Ok(Status::Done(children)) && children@.len() == 1
                                    && children@[0]@ == self.carrying_child(p.data, carried)
                            }
                        },
                    }
                }
            },
        }
    }
}

impl Worker for Ipv4Worker {
    open spec fn zero_copy(&self) -> bool {
        true
    }

    open spec fn may_answer(
        &self,
        target: LayerModel,
        stack: Seq<LayerModel>,
        r: Result<Status, Error>,
    ) -> bool {
        self.answers(target, r)
    }

    open spec fn may_add(
        &self,
        target: LayerModel,
        stack: Seq<LayerModel>,
        attrs: Seq<Attr>,
        payloads: Seq<Payload>,
        children: Seq<LayerModel>,
    ) -> bool {
        attrs.len() == 0 && payloads.len() == 0 && children.len() == 0
    }

    /// Answers as `answers` says; the proxy is left as it was.
    fn decode(&mut self, ctx: &mut Context, stack: &LayerStack, layer: &mut LayerProxy) -> (r:
        Result<Status, Error>)
        ensures
            *final(layer) == *old(layer),
            final(self).classes() == old(self).classes(),
            old(self).answers(old(layer).target(), r),
    {
        proof {
            use_type_invariant(&*self);
        }
        let payload = match payload_named(layer.payloads(), self.classes.payload) {
            Some(p) => p,
            None => {
                return Ok(Status::Skip);
            },
        };
        let data = payload.data();
        let size = data.len();
        proof {
            crate::protocol::lemma_find_payload(layer.target().payloads, self.classes.payload);
        }
        let mut child = Layer::new(self.classes.class.clone(), data);
        let protocol_attr = Attr::new(self.classes.protocol.clone(), PROTOCOL_AT..10);
        let number = match protocol_attr.get(&data) {
            Ok(v) => v,
            Err(e) => {
                return Err(e);
            },
        };
        proof {
            crate::slice::lemma_narrow(data, PROTOCOL_AT, 10);
            crate::cast::lemma_plain_uint(1, data.spec_narrow(PROTOCOL_AT, 10));
            let byte = data@.subrange(PROTOCOL_AT as int, 10);
            assert(byte.subrange(0, 1) =~= byte);
            crate::cast::lemma_be_value_1(byte);
        }
        let number = match number.to_u64() {
            Ok(n) => n,
            Err(e) => {
                return Err(e);
            },
        };
        match lookup(&self.classes.types, number) {
            Some(t) => {
                child.add_attr(Attr::new(t.class.clone(), PROTOCOL_AT..10));
                let rest = match data.skip(HEADER_LENGTH) {
                    Some(p) => p,
                    None => {
                        return Err(Error::out_of_bounds());
                    },
                };
                child.add_payload(Payload::new(rest, t.payload));
                proof {
                    assert(child.spec_build().attrs =~= old(self).carrying_child(data, *t).attrs);
                    assert(child.spec_build().payloads =~= old(self).carrying_child(
                        data,
                        *t,
                    ).payloads);
                }
            },
            None => {
                return Ok(Status::Done(Vec::new()));
            },
        }
        let child = child.build();
        let mut children: Vec<Layer> = Vec::new();
        children.push(child);
        proof {
            if size >= HEADER_LENGTH {
                crate::slice::lemma_narrow(data, HEADER_LENGTH, size);
            }
            assert(crate::layer::models(children@)[0] == child@);
        }
        Ok(Status::Done(children))
    }
}

/// Makes IPv4 workers, which run on any thread.
pub struct Ipv4Decoder {
    classes: Ipv4Classes,
}

impl Ipv4Decoder {
    #[verifier::type_invariant]
    closed spec fn inv(&self) -> bool {
        self.classes.protocol.cast == Cast::plain(1)
    }

    /// The names and classes that the workers of the decoder work with.
    pub closed spec fn classes(&self) -> Ipv4Classes {
        self.classes
    }

    /// A decoder whose classes have the tokens that `names` gives to their names.
    pub fn new(names: &mut Interner) -> (d: Ipv4Decoder)
        ensures
            old(names).names().is_prefix_of(final(names).names()),
            exists|t: Seq<Token>|
                Interner::all_named(final(names).names(), spec_names(), t)
                    && d.classes().describes(t),
    {
        let classes = Ipv4Classes::new(names);
        Ipv4Decoder { classes }
    }
}

impl Ipv4Decoder {
    /// The classes of the decoder have the tokens that the table `names` gives to their
    /// names.
    pub open spec fn knows(&self, names: Seq<Seq<char>>) -> bool {
        exists|t: Seq<Token>| Interner::all_named(names, spec_names(), t) && self.classes().describes(t)
    }

    /// The box `d` holds a decoder of IPv4 whose classes have the tokens that the table
    /// `names` gives to their names: it says of itself what that decoder says.
    pub open spec fn held_in(d: DecoderBox, names: Seq<Seq<char>>) -> bool {
        exists|c: Ipv4Classes| #[trigger] Self::boxes(d, c) && Self::named(c, names)
    }

    /// The classes `c` have the tokens that the table `names` gives to their names.
    pub open spec fn named(c: Ipv4Classes, names: Seq<Seq<char>>) -> bool {
        exists|t: Seq<Token>| Interner::all_named(names, spec_names(), t) && c.describes(t)
    }

    /// The box `d` holds a decoder with the classes `c`: its workers copy no bytes, run
    /// on any thread, add nothing, and answer as a worker with these classes does.
    pub open spec fn boxes(d: DecoderBox, c: Ipv4Classes) -> bool {
        &&& d.zero_copy()
        &&& forall|t: ExecType| #[trigger] d.may_declare(t) == (t == ExecType::ParallelSync)
        &&& forall|t: LayerModel, s: Seq<LayerModel>, a: Result<Status, Error>| #[trigger]
            d.worker_may_answer(t, s, a) == (exists|w: Ipv4Worker| #[trigger]
                w.answers(t, a) && c.like(w.classes()))
        &&& forall|
            t: LayerModel,
            s: Seq<LayerModel>,
            x: Seq<Attr>,
            y: Seq<Payload>,
            z: Seq<LayerModel>,
        | #[trigger]
            d.worker_may_add(t, s, x, y, z) == (x.len() == 0 && y.len() == 0 && z.len() == 0)
    }

    /// The decoder in a box, as `boxed` gives it. Where the classes of the decoder have
    /// the tokens that the table of `names` gives to their names, the box holds a decoder
    /// for that table.
    pub fn boxed_in(self, names: &Interner) -> (d: DecoderBox)
        ensures
            d.zero_copy(),
            d.holds(self),
            self.knows(names.names()) ==> Self::held_in(d, names.names()),
    {
        let ghost inner = self;
        let d = self.boxed();
        assert(Self::boxes(d, inner.classes()));
        assert(inner.knows(names.names()) ==> Self::boxes(d, inner.classes()) && Self::named(
            inner.classes(),
            names.names(),
        ));
        d
    }

    /// The decoder in a box, whose workers copy no bytes and run on any thread.
    pub fn boxed(self) -> (d: DecoderBox)
        ensures
            d.zero_copy(),
            d.holds(self),
    {
        DecoderBox::from_box(Box::new(self))
    }
}

impl Clone for Ipv4Decoder {
    fn clone(&self) -> (d: Ipv4Decoder) {
        proof {
            use_type_invariant(self);
        }
        Ipv4Decoder { classes: self.classes.clone() }
    }
}

impl Decoder for Ipv4Decoder {
    open spec fn zero_copy(&self) -> bool {
        true
    }

    open spec fn may_declare(&self, t: ExecType) -> bool {
        t == ExecType::ParallelSync
    }

    open spec fn worker_may_answer(
        &self,
        target: LayerModel,
        stack: Seq<LayerModel>,
        a: Result<Status, Error>,
    ) -> bool {
        exists|w: Ipv4Worker| #[trigger] w.answers(target, a) && self.classes().like(w.classes())
    }

    open spec fn worker_may_add(
        &self,
        target: LayerModel,
        stack: Seq<LayerModel>,
        attrs: Seq<Attr>,
        payloads: Seq<Payload>,
        children: Seq<LayerModel>,
    ) -> bool {
        attrs.len() == 0 && payloads.len() == 0 && children.len() == 0
    }

    fn new_worker(&self, ctx: &Context) -> (w: WorkerBox) {
        proof {
            use_type_invariant(self);
        }
        let worker = Ipv4Worker { classes: self.classes.clone() };
        let ghost made = worker;
        let w = WorkerBox::new(Box::new(worker));
        assert forall|t: LayerModel, s: Seq<LayerModel>, a: Result<Status, Error>| #[trigger]
            w.may_answer(t, s, a) implies self.worker_may_answer(t, s, a) by {
            assert(made.answers(t, a) && self.classes().like(made.classes()));
        }
        w
    }

    fn execution_type(&self) -> (t: ExecType)
        ensures
            t == ExecType::ParallelSync,
    {
        ExecType::ParallelSync
    }
}

/// A box that holds a decoder of IPv4 for the table `names` holds one for any table
/// that begins with `names`.
pub proof fn lemma_held_kept(d: DecoderBox, names: Seq<Seq<char>>, more: Seq<Seq<char>>)
    requires
        Ipv4Decoder::held_in(d, names),
        names.is_prefix_of(more),
    ensures
        Ipv4Decoder::held_in(d, more),
{
    let c = choose|c: Ipv4Classes|
        #[trigger] Ipv4Decoder::boxes(d, c) && Ipv4Decoder::named(c, names);
    let t = choose|t: Seq<Token>| Interner::all_named(names, spec_names(), t) && c.describes(t);
    crate::token::lemma_named_kept(names, more, spec_names(), t);
    assert(Ipv4Decoder::boxes(d, c) && Ipv4Decoder::named(c, more));
}

} // verus!
