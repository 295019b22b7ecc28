//! Ethernet: decodes the link layer of an Ethernet capture.
use crate::attr::{Attr, AttrClass};
use crate::cast::Cast;
use crate::context::Context;
use crate::decoder::{Decoder, DecoderBox, ExecType, Status, Worker, WorkerBox};
use crate::error::{Error, ErrorKind};
use crate::layer::{Layer, LayerClass, LayerModel, LayerProxy, LayerStack, Payload};
use crate::protocol::{copy, find_protocol, lookup, mark, protocol, Protocol};
use crate::slice::Slice;
use crate::token::{Interner, Token};
use std::sync::Arc;
use vstd::prelude::*;

verus! {

/// The most that the two bytes behind the addresses can be as a length; above it they
/// name the protocol of the payload.
pub const MAX_LENGTH: u64 = 1500;

/// The length of the header: two addresses of six bytes and two bytes of length or type.
pub const HEADER_LENGTH: usize = 14;

/// The names and classes of the Ethernet layer.
pub struct EthClasses {
    pub link: Token,
    pub class: Arc<LayerClass>,
    pub len: Arc<AttrClass>,
    pub typ: Arc<AttrClass>,
    pub types: Vec<Protocol>,
}

/// Decodes a layer of the class `[link-1]` into an Ethernet layer on the same bytes.
pub struct EthWorker {
    classes: EthClasses,
}

impl EthWorker {
    #[verifier::type_invariant]
    closed spec fn inv(&self) -> bool {
        &&& self.classes.len.cast == Cast::UInt { width: 2, shift: 0, mask: u64::MAX }
        &&& self.classes.typ.cast == Cast::UInt { width: 2, shift: 0, mask: u64::MAX }
    }

    /// The names and classes that the worker works with.
    pub closed spec fn classes(&self) -> EthClasses {
        self.classes
    }

    /// The attribute of the length, on the two bytes behind the addresses.
    pub open spec fn len_attr(&self) -> Attr {
        Attr { class: self.classes().len, start: 12, end: 14 }
    }

    /// The attribute of the type, on the same two bytes.
    pub open spec fn type_attr(&self) -> Attr {
        Attr { class: self.classes().typ, start: 12, end: 14 }
    }

    /// The number that the two bytes behind the addresses spell.
    pub open spec fn number(data: Slice) -> u64 {
        crate::cast::be_value(data@.subrange(12, 14)) as u64
    }

    /// The Ethernet layer on `data`, which has a whole header. The layer holds the length,
    /// or the type where the number is too large for a length; and where the number is
    /// that of a known protocol, the mark of the protocol and what follows the header as
    /// its payload.
    pub open spec fn child(&self, data: Slice) -> LayerModel {
        let number = Self::number(data);
        let first = if number <= MAX_LENGTH {
            self.len_attr()
        } else {
            self.type_attr()
        };
        match find_protocol(self.classes().types@, number) {
            Some(t) => LayerModel {
                class: self.classes().class@,
                data,
                attrs: seq![first, Attr { class: t.class, start: 12, end: 14 }],
                payloads: seq![
                    Payload {
                        data: data.spec_narrow(HEADER_LENGTH, data@.len() as usize),
                        id: t.payload,
                        typ: Token { id: 0 },
                    },
                ],
            },
            None => LayerModel {
                class: self.classes().class@,
                data,
                attrs: seq![first],
                payloads: Seq::<Payload>::empty(),
            },
        }
    }

    /// `r` is the worker's answer for the layer `target`.
    pub open spec fn answers(&self, target: LayerModel, r: Result<Status, Error>) -> bool {
        if target.class.id != self.classes().link {
            r matches Ok(Status::Skip)
        } else if target.data@.len() < HEADER_LENGTH {
            r matches Err(e) && e.spec_kind() == ErrorKind::Bounds
        } else {
            r matches Ok(Status::Done(children)) && children@.len() == 1 && children@[0]@
                == self.child(target.data)
        }
    }
}

impl Worker for EthWorker {
    open spec fn zero_copy(&self) -> bool {
        true
    }

    open spec fn may_answer(
        &self,
        target: LayerModel,
        stack: Seq<LayerModel>,
        r: Result<Status, Error>,
    ) -> bool {
        self.answers(target, r)
    }

    open spec fn may_add(
        &self,
        target: LayerModel,
        stack: Seq<LayerModel>,
        attrs: Seq<Attr>,
        payloads: Seq<Payload>,
        children: Seq<LayerModel>,
    ) -> bool {
        attrs.len() == 0 && payloads.len() == 0 && children.len() == 0
    }

    /// Skips a layer of another class than `[link-1]`. Fails with a bounds error on a
    /// link layer that is shorter than the header. Else claims the layer and answers the
    /// one Ethernet layer that `child` describes; the proxy is left as it was.
    fn decode(&mut self, ctx: &mut Context, stack: &LayerStack, layer: &mut LayerProxy) -> (r:
        Result<Status, Error>)
        ensures
            *final(layer) == *old(layer),
            final(self).classes() == old(self).classes(),
            old(self).answers(old(layer).target(), r),
    {
        proof {
            use_type_invariant(&*self);
        }
        if layer.id() != self.classes.link {
            return Ok(Status::Skip);
        }
        let data = layer.data();
        let size = data.len();
        let mut child = Layer::new(self.classes.class.clone(), data);
        let len_attr = Attr::new(self.classes.len.clone(), 12..14);
        let number = match len_attr.get(&data) {
            Ok(v) => v,
            Err(e) => {
                return Err(e);
            },
        };
        proof {
            crate::slice::lemma_narrow(data, 12, 14);
            crate::cast::lemma_plain_uint(2, data.spec_narrow(12, 14));
            assert(data@.subrange(12, 14).subrange(0, 2) =~= data@.subrange(12, 14));
        }
        let number = match number.to_u64() {
            Ok(n) => n,
            Err(e) => {
                return Err(e);
            },
        };
        if number <= MAX_LENGTH {
            child.add_attr(len_attr);
        } else {
            child.add_attr(Attr::new(self.classes.typ.clone(), 12..14));
        }
        match lookup(&self.classes.types, number) {
            Some(t) => {
                child.add_attr(Attr::new(t.class.clone(), 12..14));
                let payload = match data.skip(HEADER_LENGTH) {
                    Some(p) => p,
                    None => {
                        return Err(Error::out_of_bounds());
                    },
                };
                child.add_payload(Payload::new(payload, t.payload));
            },
            None => {},
        }
        let child = child.build();
        let mut children: Vec<Layer> = Vec::new();
        children.push(child);
        proof {
            assert(child@.attrs =~= old(self).child(data).attrs);
            assert(child@.payloads =~= old(self).child(data).payloads);
            crate::slice::lemma_narrow(data, HEADER_LENGTH, size);
            assert(crate::layer::models(children@)[0] == child@);
        }
        Ok(Status::Done(children))
    }
}

/// The names that the Ethernet layer uses, in the order in which `EthClasses::new` interns
/// them.
pub fn names() -> (r: [&'static str; 21])
    ensures
        r@ == spec_names(),
{
    [
        "[link-1]",
        "eth",
        "_.src",
        "eth.src",
        "_.dst",
        "eth.dst",
        "@eth:mac",
        "eth.len",
        "eth.type",
        "@enum",
        "@novalue",
        "@data:ipv4",
        "eth.type.ipv4",
        "@data:arp",
        "eth.type.arp",
        "@data:wol",
        "eth.type.wol",
        "@data:ipv6",
        "eth.type.ipv6",
        "@data:eap",
        "eth.type.eap",
    ]
}

pub open spec fn spec_names() -> Seq<&'static str> {
    seq![
        "[link-1]",
        "eth",
        "_.src",
        "eth.src",
        "_.dst",
        "eth.dst",
        "@eth:mac",
        "eth.len",
        "eth.type",
        "@enum",
        "@novalue",
        "@data:ipv4",
        "eth.type.ipv4",
        "@data:arp",
        "eth.type.arp",
        "@data:wol",
        "eth.type.wol",
        "@data:ipv6",
        "eth.type.ipv6",
        "@data:eap",
        "eth.type.eap",
    ]
}

impl EthClasses {
    /// The classes are those of Ethernet, with the tokens `t` for the names of
    /// `spec_names`, in their order.
    pub open spec fn describes(&self, t: Seq<Token>) -> bool {
        &&& t.len() == 21
        &&& self.link == t[0]
        &&& self.class@ == (crate::layer::LayerClassModel {
            id: t[1],
            aliases: seq![
                crate::layer::Alias { id: t[2], target: t[3] },
                crate::layer::Alias { id: t[4], target: t[5] },
            ],
            headers: seq![
                Attr {
                    class: Arc::new(AttrClass { id: t[3], typ: t[6], cast: Cast::Bytes }),
                    start: 0,
                    end: 6,
                },
                Attr {
                    class: Arc::new(AttrClass { id: t[5], typ: t[6], cast: Cast::Bytes }),
                    start: 6,
                    end: 12,
                },
            ],
        })
        &&& *self.len == (AttrClass {
            id: t[7],
            typ: Token { id: 0 },
            cast: Cast::UInt { width: 2, shift: 0, mask: u64::MAX },
        })
        &&& *self.typ == (AttrClass {
            id: t[8],
            typ: t[9],
            cast: Cast::UInt { width: 2, shift: 0, mask: u64::MAX },
        })
        &&& self.types@.len() == 5
        &&& self.types@[0] == (Protocol {
            number: 0x0800,
            payload: t[11],
            class: Arc::new(mark(t[12], t[10])),
        })
        &&& self.types@[1] == (Protocol {
            number: 0x0806,
            payload: t[13],
            class: Arc::new(mark(t[14], t[10])),
        })
        &&& self.types@[2] == (Protocol {
            number: 0x0842,
            payload: t[15],
            class: Arc::new(mark(t[16], t[10])),
        })
        &&& self.types@[3] == (Protocol {
            number: 0x86DD,
            payload: t[17],
            class: Arc::new(mark(t[18], t[10])),
        })
        &&& self.types@[4] == (Protocol {
            number: 0x888E,
            payload: t[19],
            class: Arc::new(mark(t[20], t[10])),
        })
    }

    /// The classes of Ethernet with the tokens `t`.
    fn with_tokens(t: &Vec<Token>) -> (c: EthClasses)
        requires
            t@.len() == 21,
        ensures
            c.describes(t@),
    {
        let src = Arc::new(AttrClass::builder(t[3]).typ(t[6]).cast(Cast::Bytes).build());
        let dst = Arc::new(AttrClass::builder(t[5]).typ(t[6]).cast(Cast::Bytes).build());
        let class = LayerClass::builder(t[1]).alias(t[2], t[3]).alias(t[4], t[5]).header(
            Attr::new(src, 0..6),
        ).header(Attr::new(dst, 6..12)).build();
        let len = AttrClass::builder(t[7]).cast(Cast::uint16be()).build();
        let typ = AttrClass::builder(t[8]).typ(t[9]).cast(Cast::uint16be()).build();
        let mut types: Vec<Protocol> = Vec::new();
        types.push(protocol(0x0800, t[11], t[12], t[10]));
        types.push(protocol(0x0806, t[13], t[14], t[10]));
        types.push(protocol(0x0842, t[15], t[16], t[10]));
        types.push(protocol(0x86DD, t[17], t[18], t[10]));
        types.push(protocol(0x888E, t[19], t[20], t[10]));
        let c = EthClasses {
            link: t[0],
            class: Arc::new(class),
            len: Arc::new(len),
            typ: Arc::new(typ),
            types,
        };
        assert(c.class@.aliases =~= seq![
            crate::layer::Alias { id: t@[2], target: t@[3] },
            crate::layer::Alias { id: t@[4], target: t@[5] },
        ]);
        assert(c.class@.headers =~= seq![
            Attr {
                class: Arc::new(AttrClass { id: t@[3], typ: t@[6], cast: Cast::Bytes }),
                start: 0,
                end: 6,
            },
            Attr {
                class: Arc::new(AttrClass { id: t@[5], typ: t@[6], cast: Cast::Bytes }),
                start: 6,
                end: 12,
            },
        ]);
        c
    }

    /// The classes of Ethernet, with the tokens that `names` gives to their names.
    pub fn new(names: &mut Interner) -> (c: EthClasses)
        ensures
            old(names).names().is_prefix_of(final(names).names()),
            exists|t: Seq<Token>|
                Interner::all_named(final(names).names(), spec_names(), t) && c.describes(t),
    {
        let wanted = self::names();
        let tokens = names.intern_all(wanted.as_slice());
        let c = EthClasses::with_tokens(&tokens);
        assert(Interner::all_named(names.names(), spec_names(), tokens@) && c.describes(tokens@));
        c
    }
}

impl EthWorker {
    /// A worker with the classes `classes`; none where the length or the type is not read
    /// as a number of two bytes.
    pub fn new(classes: EthClasses) -> (r: Option<EthWorker>)
        ensures
            r is Some <==> classes.len.cast == Cast::plain(2) && classes.typ.cast == Cast::plain(
                2,
            ),
            r matches Some(w) ==> w.classes() == classes,
    {
        if classes.len.cast == Cast::uint16be() && classes.typ.cast == Cast::uint16be() {
            Some(EthWorker { classes })
        } else {
            None
        }
    }
}

impl EthClasses {
    /// These classes are the classes `other`, name for name.
    pub open spec fn like(&self, other: EthClasses) -> bool {
        &&& other.link == self.link
        &&& other.class == self.class
        &&& other.len == self.len
        &&& other.typ == self.typ
        &&& other.types@ == self.types@
    }
}

impl Clone for EthClasses {
    fn clone(&self) -> (c: EthClasses)
        ensures
            self.like(c),
    {
        let types = copy(&self.types);
        EthClasses {
            link: self.link,
            class: self.class.clone(),
            len: self.len.clone(),
            typ: self.typ.clone(),
            types,
        }
    }
}

/// Makes Ethernet workers, which run on any thread.
pub struct EthDecoder {
    classes: EthClasses,
}

impl EthDecoder {
    #[verifier::type_invariant]
    closed spec fn inv(&self) -> bool {
        &&& self.classes.len.cast == Cast::plain(2)
        &&& self.classes.typ.cast == Cast::plain(2)
    }

    /// The names and classes that the workers of the decoder work with.
    pub closed spec fn classes(&self) -> EthClasses {
        self.classes
    }

    /// A decoder whose classes have the tokens that `names` gives to their names.
    pub fn new(names: &mut Interner) -> (d: EthDecoder)
        ensures
            old(names).names().is_prefix_of(final(names).names()),
            exists|t: Seq<Token>|
                Interner::all_named(final(names).names(), spec_names(), t)
                    && d.classes().describes(t),
    {
        let classes = EthClasses::new(names);
        EthDecoder { classes }
    }
}

impl EthDecoder {
    /// The classes of the decoder have the tokens that the table `names` gives to their
    /// names.
    pub open spec fn knows(&self, names: Seq<Seq<char>>) -> bool {
        exists|t: Seq<Token>| Interner::all_named(names, spec_names(), t) && self.classes().describes(t)
    }

    /// The box `d` holds a decoder of Ethernet whose classes have the tokens that the table
    /// `names` gives to their names: it says of itself what that decoder says.
    pub open spec fn held_in(d: DecoderBox, names: Seq<Seq<char>>) -> bool {
        exists|c: EthClasses| #[trigger] Self::boxes(d, c) && Self::named(c, names)
    }

    /// The classes `c` have the tokens that the table `names` gives to their names.
    pub open spec fn named(c: EthClasses, names: Seq<Seq<char>>) -> bool {
        exists|t: Seq<Token>| Interner::all_named(names, spec_names(), t) && c.describes(t)
    }

    /// The box `d` holds a decoder with the classes `c`: its workers copy no bytes, run
    /// on any thread, add nothing, and answer as a worker with these classes does.
    pub open spec fn boxes(d: DecoderBox, c: EthClasses) -> bool {
        &&& d.zero_copy()
        &&& forall|t: ExecType| #[trigger] d.may_declare(t) == (t == ExecType::ParallelSync)
        &&& forall|t: LayerModel, s: Seq<LayerModel>, a: Result<Status, Error>| #[trigger]
            d.worker_may_answer(t, s, a) == (exists|w: EthWorker| #[trigger]
                w.answers(t, a) && c.like(w.classes()))
        &&& forall|
            t: LayerModel,
            s: Seq<LayerModel>,
            x: Seq<Attr>,
            y: Seq<Payload>,
            z: Seq<LayerModel>,
        | #[trigger]
            d.worker_may_add(t, s, x, y, z) == (x.len() == 0 && y.len() == 0 && z.len() == 0)
    }

    /// The decoder in a box, as `boxed` gives it. Where the classes of the decoder have
    /// the tokens that the table of `names` gives to their names, the box holds a decoder
    /// for that table.
    pub fn boxed_in(self, names: &Interner) -> (d: DecoderBox)
        ensures
            d.zero_copy(),
            d.holds(self),
            self.knows(names.names()) ==> Self::held_in(d, names.names()),
    {
        let ghost inner = self;
        let d = self.boxed();
        assert(Self::boxes(d, inner.classes()));
        assert(inner.knows(names.names()) ==> Self::boxes(d, inner.classes()) && Self::named(
            inner.classes(),
            names.names(),
        ));
        d
    }

    /// The decoder in a box, whose workers copy no bytes and run on any thread.
    pub fn boxed(self) -> (d: DecoderBox)
        ensures
            d.zero_copy(),
            d.holds(self),
    {
        DecoderBox::from_box(Box::new(self))
    }
}

impl Clone for EthDecoder {
    fn clone(&self) -> (d: EthDecoder) {
        proof {
            use_type_invariant(self);
        }
        EthDecoder { classes: self.classes.clone() }
    }
}

impl Decoder for EthDecoder {
    open spec fn zero_copy(&self) -> bool {
        true
    }

    open spec fn may_declare(&self, t: ExecType) -> bool {
        t == ExecType::ParallelSync
    }

    open spec fn worker_may_answer(
        &self,
        target: LayerModel,
        stack: Seq<LayerModel>,
        a: Result<Status, Error>,
    ) -> bool {
        exists|w: EthWorker| #[trigger] w.answers(target, a) && self.classes().like(w.classes())
    }

    open spec fn worker_may_add(
        &self,
        target: LayerModel,
        stack: Seq<LayerModel>,
        attrs: Seq<Attr>,
        payloads: Seq<Payload>,
        children: Seq<LayerModel>,
    ) -> bool {
        attrs.len() == 0 && payloads.len() == 0 && children.len() == 0
    }

    fn new_worker(&self, ctx: &Context) -> (w: WorkerBox) {
        proof {
            use_type_invariant(self);
        }
        let worker = EthWorker { classes: self.classes.clone() };
        let ghost made = worker;
        let w = WorkerBox::new(Box::new(worker));
        assert forall|t: LayerModel, s: Seq<LayerModel>, a: Result<Status, Error>| #[trigger]
            w.may_answer(t, s, a) implies self.worker_may_answer(t, s, a) by {
            assert(made.answers(t, a) && self.classes().like(made.classes()));
        }
        w
    }

    fn execution_type(&self) -> (t: ExecType)
        ensures
            t == ExecType::ParallelSync,
    {
        ExecType::ParallelSync
    }
}

/// A box that holds a decoder of Ethernet for the table `names` holds one for any table
/// that begins with `names`.
pub proof fn lemma_held_kept(d: DecoderBox, names: Seq<Seq<char>>, more: Seq<Seq<char>>)
    requires
        EthDecoder::held_in(d, names),
        names.is_prefix_of(more),
    ensures
        EthDecoder::held_in(d, more),
{
    let c = choose|c: EthClasses|
        #[trigger] EthDecoder::boxes(d, c) && EthDecoder::named(c, names);
    let t = choose|t: Seq<Token>| Interner::all_named(names, spec_names(), t) && c.describes(t);
    crate::token::lemma_named_kept(names, more, spec_names(), t);
    assert(EthDecoder::boxes(d, c) && EthDecoder::named(c, more));
}

} // verus!
