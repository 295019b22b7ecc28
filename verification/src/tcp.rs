//! TCP: decodes the payload that a network layer hands on as TCP, with its options.
use crate::attr::{Attr, AttrClass};
use crate::cast::Cast;
use crate::context::Context;
use crate::decoder::{Decoder, DecoderBox, ExecType, Status, Worker, WorkerBox};
use crate::error::{Error, ErrorKind};
use crate::layer::{Layer, LayerClass, LayerClassModel, LayerModel, LayerProxy, LayerStack, Payload};
use crate::protocol::{field, find_payload, payload_named, spec_field};
use crate::slice::Slice;
use crate::token::{Interner, Token};
use std::sync::Arc;
use vstd::prelude::*;

verus! {

/// The length of a header without options, where the options begin.
pub const HEADER_LENGTH: usize = 20;

/// The place of the byte whose upper half holds the length of the header in words of
/// four bytes.
pub const OFFSET_AT: usize = 12;

/// The names and classes of the TCP layer.
pub struct TcpClasses {
    /// The name of the payload that the decoder claims, and of the payload it hands on.
    pub payload: Token,
    pub class: Arc<LayerClass>,
    /// The class of the attribute that holds the length of the header.
    pub offset: Arc<AttrClass>,
    pub nop: Arc<AttrClass>,
    pub mss: Arc<AttrClass>,
    pub scale: Arc<AttrClass>,
    pub sack_permitted: Arc<AttrClass>,
    pub sack: Arc<AttrClass>,
    pub ts: Arc<AttrClass>,
    pub ts_my: Arc<AttrClass>,
    pub ts_echo: Arc<AttrClass>,
}

/// The attributes of the option of the kind `kind` that takes `len` bytes from `at` on.
/// An option of an unknown kind has none.
pub open spec fn option_attrs(c: TcpClasses, kind: u8, at: int, len: int) -> Seq<Attr> {
    let whole = |class: Arc<AttrClass>|
        Attr { class, start: at as usize, end: (at + len) as usize };
    if kind == 2 {
        seq![whole(c.mss)]
    } else if kind == 3 {
        seq![whole(c.scale)]
    } else if kind == 4 {
        seq![whole(c.sack_permitted)]
    } else if kind == 5 {
        seq![whole(c.sack)]
    } else if kind == 8 {
        seq![
            whole(c.ts),
            Attr { class: c.ts_my, start: (at + 2) as usize, end: (at + 6) as usize },
            Attr { class: c.ts_echo, start: (at + 6) as usize, end: (at + 10) as usize },
        ]
    } else {
        Seq::<Attr>::empty()
    }
}

/// `attrs` and then what `rest` holds, where `rest` holds anything.
pub open spec fn and_then(attrs: Seq<Attr>, rest: Result<Seq<Attr>, ErrorKind>) -> Result<
    Seq<Attr>,
    ErrorKind,
> {
    match rest {
        Ok(more) => Ok(attrs + more),
        Err(kind) => Err(kind),
    }
}

/// The attributes of the options that stand in `data` from `at` up to `end`, read one
/// after the other. Every option is read as a kind and a length, so both bytes must be
/// there: else the walk is a bounds error. The kind 0 pads one byte. The kind 1 is an
/// option of one byte. Any other option takes as many bytes as its length says; a length
/// of zero, with which the walk would never end, is a decode error.
pub open spec fn options(c: TcpClasses, data: Seq<u8>, at: int, end: int) -> Result<
    Seq<Attr>,
    ErrorKind,
>
    decreases end + 256 - at,
{
    if at >= end || at < 0 {
        Ok(Seq::<Attr>::empty())
    } else if at + 1 >= data.len() {
        Err(ErrorKind::Bounds)
    } else {
        let kind = data[at];
        let len = data[at + 1] as int;
        if kind == 0 {
            options(c, data, at + 1, end)
        } else if kind == 1 {
            and_then(
                seq![Attr { class: c.nop, start: at as usize, end: (at + 1) as usize }],
                options(c, data, at + 1, end),
            )
        } else if len == 0 {
            Err(ErrorKind::Decode)
        } else {
            and_then(option_attrs(c, kind, at, len), options(c, data, at + len, end))
        }
    }
}

/// The cast that reads the upper half of one byte as a number.
pub open spec fn upper_half() -> Cast {
    Cast::UInt { width: 1, shift: 4, mask: u64::MAX }
}

/// The length of the header that the byte `byte` names.
pub open spec fn header_length(byte: u8) -> usize {
    ((byte / 16) * 4) as usize
}

/// Decodes the first payload named `@data:tcp` of a layer into a TCP layer.
pub struct TcpWorker {
    classes: TcpClasses,
}

impl TcpWorker {
    #[verifier::type_invariant]
    closed spec fn inv(&self) -> bool {
        self.classes.offset.cast == upper_half()
    }

    /// The names and classes that the worker works with.
    pub closed spec fn classes(&self) -> TcpClasses {
        self.classes
    }

    /// A worker with the classes `classes`; none where the length of the header is not
    /// read as the upper half of one byte.
    pub fn new(classes: TcpClasses) -> (r: Option<TcpWorker>)
        ensures
            r is Some <==> classes.offset.cast == upper_half(),
            r matches Some(w) ==> w.classes() == classes,
    {
        if classes.offset.cast == Cast::bits(1, 4, u64::MAX) {
            Some(TcpWorker { classes })
        } else {
            None
        }
    }

    /// The TCP layer on `data` with the attributes `attrs` of its options: what follows
    /// the header is its payload.
    pub open spec fn child(&self, data: Slice, attrs: Seq<Attr>) -> LayerModel {
        LayerModel {
            class: self.classes().class@,
            data,
            attrs,
            payloads: seq![
                Payload {
                    data: data.spec_narrow(
                        header_length(data@[OFFSET_AT as int]),
                        data@.len() as usize,
                    ),
                    id: self.classes().payload,
                    typ: Token { id: 0 },
                },
            ],
        }
    }

    /// `r` is the worker's answer for the layer `target`: a layer without a TCP payload is
    /// skipped; a payload without the byte of the header's length is a bounds error; so
    /// is a header that is longer than the payload; the walk through the options may
    /// fail; else the answer is the one layer on the payload.
    pub open spec fn answers(&self, target: LayerModel, r: Result<Status, Error>) -> bool {
        match find_payload(target.payloads, self.classes().payload) {
            None => r matches Ok(Status::Skip),
            Some(p) => {
                if p.data@.len() <= OFFSET_AT {
                    r matches Err(e) && e.spec_kind() == ErrorKind::Bounds
                } else {
                    let end = header_length(p.data@[OFFSET_AT as int]);
                    match options(self.classes(), p.data@, HEADER_LENGTH as int, end as int) {
                        Err(kind) => r matches Err(e) && e.spec_kind() == kind,
                        Ok(attrs) => {
                            if end > p.data@.len() {
                                r matches Err(e) && e.spec_kind() == ErrorKind::Bounds
                            } else {
                                r matches Ok(Status::Done(children)) && children@.len() == 1
                                    && children@[0]@ == self.child(p.data, attrs)
                            }
                        },
                    }
                }
            },
        }
    }

    /// Adds to `child` the attributes of the option of the kind `kind` at `at`.
    fn add_option(&self, child: &mut crate::layer::LayerBuilder, kind: u8, at: usize, len: usize)
        requires
            at + len + 10 <= usize::MAX,
        ensures
            final(child).spec_build() == (LayerModel {
                attrs: old(child).spec_build().attrs + option_attrs(
                    self.classes(),
                    kind,
                    at as int,
                    len as int,
                ),
                ..old(child).spec_build()
            }),
    {
        let ghost before = child.spec_build();
        if kind == 2 {
            child.add_attr(Attr::new(self.classes.mss.clone(), at..at + len));
        } else if kind == 3 {
            child.add_attr(Attr::new(self.classes.scale.clone(), at..at + len));
        } else if kind == 4 {
            child.add_attr(Attr::new(self.classes.sack_permitted.clone(), at..at + len));
        } else if kind == 5 {
            child.add_attr(Attr::new(self.classes.sack.clone(), at..at + len));
        } else if kind == 8 {
            child.add_attr(Attr::new(self.classes.ts.clone(), at..at + len));
            child.add_attr(Attr::new(self.classes.ts_my.clone(), at + 2..at + 6));
            child.add_attr(Attr::new(self.classes.ts_echo.clone(), at + 6..at + 10));
        }
        assert(child.spec_build().attrs =~= before.attrs + option_attrs(
            self.classes(),
            kind,
            at as int,
            len as int,
        ));
    }
}

impl Worker for TcpWorker {
    open spec fn zero_copy(&self) -> bool {
        true
    }

    open spec fn may_answer(
        &self,
        target: LayerModel,
        stack: Seq<LayerModel>,
        r: Result<Status, Error>,
    ) -> bool {
        self.answers(target, r)
    }

    open spec fn may_add(
        &self,
        target: LayerModel,
        stack: Seq<LayerModel>,
        attrs: Seq<Attr>,
        payloads: Seq<Payload>,
        children: Seq<LayerModel>,
    ) -> bool {
        attrs.len() == 0 && payloads.len() == 0 && children.len() == 0
    }

    /// Answers as `answers` says; the proxy is left as it was.
    fn decode(&mut self, ctx: &mut Context, stack: &LayerStack, layer: &mut LayerProxy) -> (r:
        Result<Status, Error>)
        ensures
            *final(layer) == *old(layer),
            final(self).classes() == old(self).classes(),
            old(self).answers(old(layer).target(), r),
    {
        proof {
            use_type_invariant(&*self);
        }
        let payload = match payload_named(layer.payloads(), self.classes.payload) {
            Some(p) => p,
            None => {
                return Ok(Status::Skip);
            },
        };
        let data = payload.data();
        let size = data.len();
        proof {
            crate::protocol::lemma_find_payload(layer.target().payloads, self.classes.payload);
        }
        let mut child = Layer::new(self.classes.class.clone(), data);
        let offset_attr = Attr::new(self.classes.offset.clone(), OFFSET_AT..13);
        let words = match offset_attr.get(&data) {
            Ok(v) => v,
            Err(e) => {
                return Err(e);
            },
        };
        proof {
            crate::slice::lemma_narrow(data, OFFSET_AT, 13);
            let byte = data@.subrange(OFFSET_AT as int, 13);
            assert(byte.subrange(0, 1) =~= byte);
            crate::cast::lemma_be_value_1(byte);
            let b = data@[OFFSET_AT as int];
            assert(((b as u64) >> 4u64) & u64::MAX == (b / 16) as u64) by (bit_vector);
        }
        let words = match words.to_u64() {
            Ok(n) => n,
            Err(e) => {
                return Err(e);
            },
        };
        let end = (words * 4) as usize;
        let ghost c = self.classes();
        let mut at: usize = HEADER_LENGTH;
        assert(child.spec_build().attrs + Seq::<Attr>::empty() =~= child.spec_build().attrs);
        while at < end
            invariant
                HEADER_LENGTH <= at,
                end <= 60,
                at <= end + 255,
                size == data@.len(),
                c == self.classes(),
                child.spec_build().class == self.classes().class@,
                child.spec_build().data == data,
                child.spec_build().payloads == Seq::<Payload>::empty(),
                *layer == *old(layer),
                *self == *old(self),
                find_payload(layer.target().payloads, c.payload) == Some(payload),
                payload.data == data,
                size > OFFSET_AT,
                end == header_length(data@[OFFSET_AT as int]),
                options(c, data@, HEADER_LENGTH as int, end as int) == and_then(
                    child.spec_build().attrs,
                    options(c, data@, at as int, end as int),
                ),
            decreases end + 255 - at,
        {
            let ghost had = child.spec_build().attrs;
            let kind = match data.at(at) {
                Some(b) => b,
                None => {
                    return Err(Error::out_of_bounds());
                },
            };
            let len = match data.at(at + 1) {
                Some(b) => b as usize,
                None => {
                    return Err(Error::out_of_bounds());
                },
            };
            if kind == 0 {
                at = at + 1;
            } else if kind == 1 {
                child.add_attr(Attr::new(self.classes.nop.clone(), at..at + 1));
                proof {
                    let one = seq![Attr { class: c.nop, start: at, end: (at + 1) as usize }];
                    assert(child.spec_build().attrs =~= had + one);
                    let rest = options(c, data@, at + 1, end as int);
                    if let Ok(more) = rest {
                        assert(had + (one + more) =~= (had + one) + more);
                    }
                }
                at = at + 1;
            } else if len == 0 {
                return Err(Error::new("option of no length"));
            } else {
                self.add_option(&mut child, kind, at, len);
                proof {
                    let these = option_attrs(c, kind, at as int, len as int);
                    let rest = options(c, data@, at + len, end as int);
                    if let Ok(more) = rest {
                        assert(had + (these + more) =~= (had + these) + more);
                    }
                }
                at = at + len;
            }
        }
        let rest = match data.skip(end) {
            Some(p) => p,
            None => {
                return Err(Error::out_of_bounds());
            },
        };
        proof {
            assert(child.spec_build().attrs + Seq::<Attr>::empty() =~= child.spec_build().attrs);
        }
        child.add_payload(Payload::new(rest, self.classes.payload));
        let child = child.build();
        proof {
            let attrs = options(c, data@, HEADER_LENGTH as int, end as int)->Ok_0;
            assert(child@.payloads =~= old(self).child(data, attrs).payloads);
            crate::slice::lemma_narrow(data, end, size);
        }
        let mut children: Vec<Layer> = Vec::new();
        children.push(child);
        assert(crate::layer::models(children@)[0] == child@);
        Ok(Status::Done(children))
    }
}

/// The names that the TCP layer uses, in the order in which `TcpClasses::new` interns them.
pub fn names() -> (r: [&'static str; 33])
    ensures
        r@ == spec_names(),
{
    [
        "@data:tcp",
        "tcp",
        "tcp.src",
        "@tcp:port",
        "tcp.dst",
        "tcp.seq",
        "tcp.ack",
        "tcp.dataOffset",
        "tcp.flags",
        "@flags",
        "tcp.flags.ns",
        "tcp.flags.cwr",
        "tcp.flags.ece",
        "tcp.flags.urg",
        "tcp.flags.ack",
        "tcp.flags.psh",
        "tcp.flags.rst",
        "tcp.flags.syn",
        "tcp.flags.fin",
        "tcp.window",
        "tcp.checksum",
        "tcp.urgent",
        "tcp.options",
        "@nested",
        "tcp.options.nop",
        "@novalue",
        "tcp.options.mss",
        "tcp.options.scale",
        "tcp.options.selectiveAckPermitted",
        "tcp.options.selectiveAck",
        "tcp.options.ts",
        "tcp.options.ts.my",
        "tcp.options.ts.echo",
    ]
}

pub open spec fn spec_names() -> Seq<&'static str> {
    seq![
        "@data:tcp",
        "tcp",
        "tcp.src",
        "@tcp:port",
        "tcp.dst",
        "tcp.seq",
        "tcp.ack",
        "tcp.dataOffset",
        "tcp.flags",
        "@flags",
        "tcp.flags.ns",
        "tcp.flags.cwr",
        "tcp.flags.ece",
        "tcp.flags.urg",
        "tcp.flags.ack",
        "tcp.flags.psh",
        "tcp.flags.rst",
        "tcp.flags.syn",
        "tcp.flags.fin",
        "tcp.window",
        "tcp.checksum",
        "tcp.urgent",
        "tcp.options",
        "@nested",
        "tcp.options.nop",
        "@novalue",
        "tcp.options.mss",
        "tcp.options.scale",
        "tcp.options.selectiveAckPermitted",
        "tcp.options.selectiveAck",
        "tcp.options.ts",
        "tcp.options.ts.my",
        "tcp.options.ts.echo",
    ]
}

/// The attributes of the header, with the tokens `t` for the names of `spec_names`.
pub open spec fn header_fields(t: Seq<Token>) -> Seq<Attr> {
    let none = Token { id: 0 };
    seq![
        spec_field(t[2], t[3], Cast::plain(2), 0, 2),
        spec_field(t[4], t[3], Cast::plain(2), 2, 4),
        spec_field(t[5], none, Cast::plain(4), 4, 8),
        spec_field(t[6], none, Cast::plain(4), 8, 12),
        spec_field(t[7], none, Cast::UInt { width: 1, shift: 4, mask: u64::MAX }, 12, 13),
        spec_field(t[8], t[9], Cast::UInt { width: 2, shift: 0, mask: 0xfff }, 12, 14),
        spec_field(t[10], none, Cast::Flag { width: 1, mask: 0x01 }, 12, 13),
        spec_field(t[11], none, Cast::Flag { width: 1, mask: 0x80 }, 13, 14),
        spec_field(t[12], none, Cast::Flag { width: 1, mask: 0x40 }, 13, 14),
        spec_field(t[13], none, Cast::Flag { width: 1, mask: 0x20 }, 13, 14),
        spec_field(t[14], none, Cast::Flag { width: 1, mask: 0x10 }, 13, 14),
        spec_field(t[15], none, Cast::Flag { width: 1, mask: 0x08 }, 13, 14),
        spec_field(t[16], none, Cast::Flag { width: 1, mask: 0x04 }, 13, 14),
        spec_field(t[17], none, Cast::Flag { width: 1, mask: 0x02 }, 13, 14),
        spec_field(t[18], none, Cast::Flag { width: 1, mask: 0x01 }, 13, 14),
        spec_field(t[19], none, Cast::plain(2), 14, 16),
        spec_field(t[20], none, Cast::plain(2), 16, 18),
        spec_field(t[21], none, Cast::plain(2), 18, 20),
        spec_field(t[22], t[23], Cast::Const(true), 20, 21),
    ]
}

impl TcpClasses {
    /// The classes are those of TCP, with the tokens `t` for the names of `spec_names`, in
    /// their order.
    pub open spec fn describes(&self, t: Seq<Token>) -> bool {
        let none = Token { id: 0 };
        &&& t.len() == 33
        &&& self.payload == t[0]
        &&& self.class@ == (LayerClassModel {
            id: t[1],
            aliases: Seq::<crate::layer::Alias>::empty(),
            headers: header_fields(t),
        })
        &&& *self.offset == (AttrClass { id: t[7], typ: none, cast: upper_half() })
        &&& *self.nop == (AttrClass { id: t[24], typ: t[25], cast: Cast::Const(true) })
        &&& *self.mss == (AttrClass { id: t[26], typ: none, cast: Cast::UIntAt { at: 2, width: 2 } })
        &&& *self.scale == (AttrClass {
            id: t[27],
            typ: none,
            cast: Cast::UIntAt { at: 2, width: 1 },
        })
        &&& *self.sack_permitted == (AttrClass { id: t[28], typ: t[25], cast: Cast::Const(true) })
        &&& *self.sack == (AttrClass { id: t[29], typ: none, cast: Cast::BytesFrom { at: 2 } })
        &&& *self.ts == (AttrClass { id: t[30], typ: t[23], cast: Cast::Const(true) })
        &&& *self.ts_my == (AttrClass { id: t[31], typ: none, cast: Cast::plain(4) })
        &&& *self.ts_echo == (AttrClass { id: t[32], typ: none, cast: Cast::plain(4) })
    }

    /// The classes of TCP with the tokens `t`.
    fn with_tokens(t: &Vec<Token>) -> (c: TcpClasses)
        requires
            t@.len() == 33,
        ensures
            c.describes(t@),
    {
        let none = Token::null();
        let mut fields: Vec<Attr> = Vec::new();
        fields.push(field(t[2], t[3], Cast::uint16be(), 0, 2));
        fields.push(field(t[4], t[3], Cast::uint16be(), 2, 4));
        fields.push(field(t[5], none, Cast::uint32be(), 4, 8));
        fields.push(field(t[6], none, Cast::uint32be(), 8, 12));
        fields.push(field(t[7], none, Cast::bits(1, 4, u64::MAX), 12, 13));
        fields.push(field(t[8], t[9], Cast::bits(2, 0, 0xfff), 12, 14));
        fields.push(field(t[10], none, Cast::flag(1, 0x01), 12, 13));
        fields.push(field(t[11], none, Cast::flag(1, 0x80), 13, 14));
        fields.push(field(t[12], none, Cast::flag(1, 0x40), 13, 14));
        fields.push(field(t[13], none, Cast::flag(1, 0x20), 13, 14));
        fields.push(field(t[14], none, Cast::flag(1, 0x10), 13, 14));
        fields.push(field(t[15], none, Cast::flag(1, 0x08), 13, 14));
        fields.push(field(t[16], none, Cast::flag(1, 0x04), 13, 14));
        fields.push(field(t[17], none, Cast::flag(1, 0x02), 13, 14));
        fields.push(field(t[18], none, Cast::flag(1, 0x01), 13, 14));
        fields.push(field(t[19], none, Cast::uint16be(), 14, 16));
        fields.push(field(t[20], none, Cast::uint16be(), 16, 18));
        fields.push(field(t[21], none, Cast::uint16be(), 18, 20));
        fields.push(field(t[22], t[23], Cast::Const(true), 20, 21));
        assert(fields@ =~= header_fields(t@));
        let class = LayerClass::builder(t[1]).headers(fields).build();
        let c = TcpClasses {
            payload: t[0],
            class: Arc::new(class),
            offset: Arc::new(AttrClass::builder(t[7]).cast(Cast::bits(1, 4, u64::MAX)).build()),
            nop: Arc::new(AttrClass::builder(t[24]).typ(t[25]).cast(Cast::Const(true)).build()),
            mss: Arc::new(AttrClass::builder(t[26]).cast(Cast::UIntAt { at: 2, width: 2 }).build()),
            scale: Arc::new(
                AttrClass::builder(t[27]).cast(Cast::UIntAt { at: 2, width: 1 }).build(),
            ),
            sack_permitted: Arc::new(
                AttrClass::builder(t[28]).typ(t[25]).cast(Cast::Const(true)).build(),
            ),
            sack: Arc::new(AttrClass::builder(t[29]).cast(Cast::BytesFrom { at: 2 }).build()),
            ts: Arc::new(AttrClass::builder(t[30]).typ(t[23]).cast(Cast::Const(true)).build()),
            ts_my: Arc::new(AttrClass::builder(t[31]).cast(Cast::uint32be()).build()),
            ts_echo: Arc::new(AttrClass::builder(t[32]).cast(Cast::uint32be()).build()),
        };
        assert(c.class@.aliases =~= Seq::<crate::layer::Alias>::empty());
        assert(c.class@.headers =~= header_fields(t@));
        c
    }

    /// The classes of TCP, with the tokens that `names` gives to their names.
    pub fn new(names: &mut Interner) -> (c: TcpClasses)
        ensures
            old(names).names().is_prefix_of(final(names).names()),
            exists|t: Seq<Token>|
                Interner::all_named(final(names).names(), spec_names(), t) && c.describes(t),
    {
        let wanted = self::names();
        let tokens = names.intern_all(wanted.as_slice());
        let c = TcpClasses::with_tokens(&tokens);
        assert(Interner::all_named(names.names(), spec_names(), tokens@) && c.describes(tokens@));
        c
    }
}

impl TcpClasses {
    /// These classes are the classes `other`, name for name.
    pub open spec fn like(&self, other: TcpClasses) -> bool {
        &&& other == *self
    }
}

impl Clone for TcpClasses {
    fn clone(&self) -> (c: TcpClasses)
        ensures
            self.like(c),
    {
        TcpClasses {
            payload: self.payload,
            class: self.class.clone(),
            offset: self.offset.clone(),
            nop: self.nop.clone(),
            mss: self.mss.clone(),
            scale: self.scale.clone(),
            sack_permitted: self.sack_permitted.clone(),
            sack: self.sack.clone(),
            ts: self.ts.clone(),
            ts_my: self.ts_my.clone(),
            ts_echo: self.ts_echo.clone(),
        }
    }
}

/// Makes TCP workers, which run on any thread.
pub struct TcpDecoder {
    classes: TcpClasses,
}

impl TcpDecoder {
    #[verifier::type_invariant]
    closed spec fn inv(&self) -> bool {
        self.classes.offset.cast == upper_half()
    }

    /// The names and classes that the workers of the decoder work with.
    pub closed spec fn classes(&self) -> TcpClasses {
        self.classes
    }

    /// A decoder whose classes have the tokens that `names` gives to their names.
    pub fn new(names: &mut Interner) -> (d: TcpDecoder)
        ensures
            old(names).names().is_prefix_of(final(names).names()),
            exists|t: Seq<Token>|
                Interner::all_named(final(names).names(), spec_names(), t)
                    && d.classes().describes(t),
    {
        let classes = TcpClasses::new(names);
        TcpDecoder { classes }
    }
}

impl TcpDecoder {
    /// The classes of the decoder have the tokens that the table `names` gives to their
    /// names.
    pub open spec fn knows(&self, names: Seq<Seq<char>>) -> bool {
        exists|t: Seq<Token>| Interner::all_named(names, spec_names(), t) && self.classes().describes(t)
    }

    /// The box `d` holds a decoder of TCP whose classes have the tokens that the table
    /// `names` gives to their names: it says of itself what that decoder says.
    pub open spec fn held_in(d: DecoderBox, names: Seq<Seq<char>>) -> bool {
        exists|c: TcpClasses| #[trigger] Self::boxes(d, c) && Self::named(c, names)
    }

    /// The classes `c` have the tokens that the table `names` gives to their names.
    pub open spec fn named(c: TcpClasses, names: Seq<Seq<char>>) -> bool {
        exists|t: Seq<Token>| Interner::all_named(names, spec_names(), t) && c.describes(t)
    }

    /// The box `d` holds a decoder with the classes `c`: its workers copy no bytes, run
    /// on any thread, add nothing, and answer as a worker with these classes does.
    pub open spec fn boxes(d: DecoderBox, c: TcpClasses) -> bool {
        &&& d.zero_copy()
        &&& forall|t: ExecType| #[trigger] d.may_declare(t) == (t == ExecType::ParallelSync)
        &&& forall|t: LayerModel, s: Seq<LayerModel>, a: Result<Status, Error>| #[trigger]
            d.worker_may_answer(t, s, a) == (exists|w: TcpWorker| #[trigger]
                w.answers(t, a) && c.like(w.classes()))
        &&& forall|
            t: LayerModel,
            s: Seq<LayerModel>,
            x: Seq<Attr>,
            y: Seq<Payload>,
            z: Seq<LayerModel>,
        | #[trigger]
            d.worker_may_add(t, s, x, y, z) == (x.len() == 0 && y.len() == 0 && z.len() == 0)
    }

    /// The decoder in a box, as `boxed` gives it. Where the classes of the decoder have
    /// the tokens that the table of `names` gives to their names, the box holds a decoder
    /// for that table.
    pub fn boxed_in(self, names: &Interner) -> (d: DecoderBox)
        ensures
            d.zero_copy(),
            d.holds(self),
            self.knows(names.names()) ==> Self::held_in(d, names.names()),
    {
        let ghost inner = self;
        let d = self.boxed();
        assert(Self::boxes(d, inner.classes()));
        assert(inner.knows(names.names()) ==> Self::boxes(d, inner.classes()) && Self::named(
            inner.classes(),
            names.names(),
        ));
        d
    }

    /// The decoder in a box, whose workers copy no bytes and run on any thread.
    pub fn boxed(self) -> (d: DecoderBox)
        ensures
            d.zero_copy(),
            d.holds(self),
    {
        DecoderBox::from_box(Box::new(self))
    }
}

impl Clone for TcpDecoder {
    fn clone(&self) -> (d: TcpDecoder) {
        proof {
            use_type_invariant(self);
        }
        TcpDecoder { classes: self.classes.clone() }
    }
}

impl Decoder for TcpDecoder {
    open spec fn zero_copy(&self) -> bool {
        true
    }

    open spec fn may_declare(&self, t: ExecType) -> bool {
        t == ExecType::ParallelSync
    }

    open spec fn worker_may_answer(
        &self,
        target: LayerModel,
        stack: Seq<LayerModel>,
        a: Result<Status, Error>,
    ) -> bool {
        exists|w: TcpWorker| #[trigger] w.answers(target, a) && self.classes().like(w.classes())
    }

    open spec fn worker_may_add(
        &self,
        target: LayerModel,
        stack: Seq<LayerModel>,
        attrs: Seq<Attr>,
        payloads: Seq<Payload>,
        children: Seq<LayerModel>,
    ) -> bool {
        attrs.len() == 0 && payloads.len() == 0 && children.len() == 0
    }

    fn new_worker(&self, ctx: &Context) -> (w: WorkerBox) {
        proof {
            use_type_invariant(self);
        }
        let worker = TcpWorker { classes: self.classes.clone() };
        let ghost made = worker;
        let w = WorkerBox::new(Box::new(worker));
        assert forall|t: LayerModel, s: Seq<LayerModel>, a: Result<Status, Error>| #[trigger]
            w.may_answer(t, s, a) implies self.worker_may_answer(t, s, a) by {
            assert(made.answers(t, a) && self.classes().like(made.classes()));
        }
        w
    }

    fn execution_type(&self) -> (t: ExecType)
        ensures
            t == ExecType::ParallelSync,
    {
        ExecType::ParallelSync
    }
}

/// A box that holds a decoder of TCP for the table `names` holds one for any table
/// that begins with `names`.
pub proof fn lemma_held_kept(d: DecoderBox, names: Seq<Seq<char>>, more: Seq<Seq<char>>)
    requires
        TcpDecoder::held_in(d, names),
        names.is_prefix_of(more),
    ensures
        TcpDecoder::held_in(d, more),
{
    let c = choose|c: TcpClasses|
        #[trigger] TcpDecoder::boxes(d, c) && TcpDecoder::named(c, names);
    let t = choose|t: Seq<Token>| Interner::all_named(names, spec_names(), t) && c.describes(t);
    crate::token::lemma_named_kept(names, more, spec_names(), t);
    assert(TcpDecoder::boxes(d, c) && TcpDecoder::named(c, more));
}

} // verus!
