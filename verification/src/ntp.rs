//! NTP: decodes the payload of a UDP layer that goes to or comes from the NTP port.
use crate::attr::{Attr, AttrClass};
use crate::cast::Cast;
use crate::context::Context;
use crate::decoder::{Decoder, DecoderBox, ExecType, Status, Worker, WorkerBox};
use crate::error::{Error, ErrorKind};
use crate::layer::{
    lookup, stack_attr, Layer, LayerClass, LayerClassModel, LayerModel, LayerProxy, LayerStack,
    Payload,
};
use crate::protocol::{copy, field, find_protocol, mark, protocol, spec_field, Protocol};
use crate::slice::Slice;
use crate::token::{Interner, Token};
use std::sync::Arc;
use vstd::prelude::*;

verus! {

/// The port of NTP.
pub const PORT: u64 = 123;

/// The names and classes of the NTP layer.
pub struct NtpClasses {
    /// The name of the class of the layers whose payload is looked at.
    pub udp: Token,
    /// The names of the attributes that hold the ports.
    pub udp_src: Token,
    pub udp_dst: Token,
    pub class: Arc<LayerClass>,
    /// The class of the identifier of the reference, as bytes.
    pub id: Arc<AttrClass>,
    /// The class of the identifier of the reference, as an address.
    pub id_ip: Arc<AttrClass>,
    /// The marks of the leap indicators, by their number.
    pub leaps: Vec<Protocol>,
    /// The marks of the modes, by their number.
    pub modes: Vec<Protocol>,
}

/// The names that the NTP layer uses, in the order in which `NtpClasses::new` interns
/// them.
pub fn names() -> (r: [&'static str; 45])
    ensures
        r@ == spec_names(),
{
    [
        "udp",
        "udp.src",
        "udp.dst",
        "ntp",
        "ntp.leapIndicator",
        "@enum",
        "ntp.version",
        "ntp.mode",
        "ntp.stratum",
        "ntp.pollInterval",
        "ntp.precision",
        "ntp.rootDelay",
        "ntp.rootDelay.seconds",
        "ntp.rootDelay.fraction",
        "ntp.rootDispersion",
        "ntp.rootDispersion.seconds",
        "ntp.rootDispersion.fraction",
        "ntp.identifier",
        "@ipv4:addr",
        "ntp.referenceTs",
        "@ntp:time",
        "ntp.referenceTs.seconds",
        "ntp.referenceTs.fraction",
        "ntp.originateTs",
        "ntp.originateTs.seconds",
        "ntp.originateTs.fraction",
        "ntp.receiveTs",
        "ntp.receiveTs.seconds",
        "ntp.receiveTs.fraction",
        "ntp.transmitTs",
        "ntp.transmitTs.seconds",
        "ntp.transmitTs.fraction",
        "@novalue",
        "ntp.leapIndicator.noWarning",
        "ntp.leapIndicator.sec61",
        "ntp.leapIndicator.sec59",
        "ntp.leapIndicator.unknown",
        "ntp.mode.reserved",
        "ntp.mode.symmetricActive",
        "ntp.mode.symmetricPassive",
        "ntp.mode.client",
        "ntp.mode.server",
        "ntp.mode.broadcast",
        "ntp.mode.controlMessage",
        "ntp.mode.reservedForPrivate",
    ]
}

pub open spec fn spec_names() -> Seq<&'static str> {
    seq![
        "udp",
        "udp.src",
        "udp.dst",
        "ntp",
        "ntp.leapIndicator",
        "@enum",
        "ntp.version",
        "ntp.mode",
        "ntp.stratum",
        "ntp.pollInterval",
        "ntp.precision",
        "ntp.rootDelay",
        "ntp.rootDelay.seconds",
        "ntp.rootDelay.fraction",
        "ntp.rootDispersion",
        "ntp.rootDispersion.seconds",
        "ntp.rootDispersion.fraction",
        "ntp.identifier",
        "@ipv4:addr",
        "ntp.referenceTs",
        "@ntp:time",
        "ntp.referenceTs.seconds",
        "ntp.referenceTs.fraction",
        "ntp.originateTs",
        "ntp.originateTs.seconds",
        "ntp.originateTs.fraction",
        "ntp.receiveTs",
        "ntp.receiveTs.seconds",
        "ntp.receiveTs.fraction",
        "ntp.transmitTs",
        "ntp.transmitTs.seconds",
        "ntp.transmitTs.fraction",
        "@novalue",
        "ntp.leapIndicator.noWarning",
        "ntp.leapIndicator.sec61",
        "ntp.leapIndicator.sec59",
        "ntp.leapIndicator.unknown",
        "ntp.mode.reserved",
        "ntp.mode.symmetricActive",
        "ntp.mode.symmetricPassive",
        "ntp.mode.client",
        "ntp.mode.server",
        "ntp.mode.broadcast",
        "ntp.mode.controlMessage",
        "ntp.mode.reservedForPrivate",
    ]
}

/// The attributes of the header, with the tokens `t` for the names of `spec_names`. The
/// times and the spans of time are held as the numbers that the bytes spell: a span has
/// its seconds in the upper half and the fraction of a second in the lower half.
pub open spec fn header_fields(t: Seq<Token>) -> Seq<Attr> {
    let none = Token { id: 0 };
    seq![
        spec_field(t[4], t[5], Cast::UInt { width: 1, shift: 6, mask: u64::MAX }, 0, 1),
        spec_field(t[6], none, Cast::UInt { width: 1, shift: 3, mask: 0x07 }, 0, 1),
        spec_field(t[7], t[5], Cast::UInt { width: 1, shift: 0, mask: 0x07 }, 0, 1),
        spec_field(t[8], none, Cast::plain(1), 1, 2),
        spec_field(t[9], none, Cast::plain(1), 2, 3),
        spec_field(t[10], none, Cast::plain(1), 3, 4),
        spec_field(t[11], none, Cast::plain(4), 4, 8),
        spec_field(t[12], none, Cast::plain(2), 4, 6),
        spec_field(t[13], none, Cast::plain(2), 6, 8),
        spec_field(t[14], none, Cast::plain(4), 8, 12),
        spec_field(t[15], none, Cast::plain(2), 8, 10),
        spec_field(t[16], none, Cast::plain(2), 10, 12),
        spec_field(t[19], t[20], Cast::plain(8), 16, 24),
        spec_field(t[21], none, Cast::plain(4), 16, 20),
        spec_field(t[22], none, Cast::plain(4), 20, 24),
        spec_field(t[23], t[20], Cast::plain(8), 24, 32),
        spec_field(t[24], none, Cast::plain(4), 24, 28),
        spec_field(t[25], none, Cast::plain(4), 28, 32),
        spec_field(t[26], t[20], Cast::plain(8), 32, 40),
        spec_field(t[27], none, Cast::plain(4), 32, 36),
        spec_field(t[28], none, Cast::plain(4), 36, 40),
        spec_field(t[29], t[20], Cast::plain(8), 40, 48),
        spec_field(t[30], none, Cast::plain(4), 40, 44),
        spec_field(t[31], none, Cast::plain(4), 44, 48),
    ]
}

impl NtpClasses {
    /// The classes are those of NTP, with the tokens `t` for the names of `spec_names`, in
    /// their order.
    pub open spec fn describes(&self, t: Seq<Token>) -> bool {
        let none = Token { id: 0 };
        &&& t.len() == 45
        &&& self.udp == t[0]
        &&& self.udp_src == t[1]
        &&& self.udp_dst == t[2]
        &&& self.class@ == (LayerClassModel {
            id: t[3],
            aliases: Seq::<crate::layer::Alias>::empty(),
            headers: header_fields(t),
        })
        &&& *self.id == (AttrClass { id: t[17], typ: none, cast: Cast::Bytes })
        &&& *self.id_ip == (AttrClass { id: t[17], typ: t[18], cast: Cast::Bytes })
        &&& self.leaps@ == seq![
            Protocol { number: 0, payload: none, class: Arc::new(mark(t[33], t[32])) },
            Protocol { number: 1, payload: none, class: Arc::new(mark(t[34], t[32])) },
            Protocol { number: 2, payload: none, class: Arc::new(mark(t[35], t[32])) },
            Protocol { number: 3, payload: none, class: Arc::new(mark(t[36], t[32])) },
        ]
        &&& self.modes@ == seq![
            Protocol { number: 0, payload: none, class: Arc::new(mark(t[37], t[32])) },
            Protocol { number: 1, payload: none, class: Arc::new(mark(t[38], t[32])) },
            Protocol { number: 2, payload: none, class: Arc::new(mark(t[39], t[32])) },
            Protocol { number: 3, payload: none, class: Arc::new(mark(t[40], t[32])) },
            Protocol { number: 4, payload: none, class: Arc::new(mark(t[41], t[32])) },
            Protocol { number: 5, payload: none, class: Arc::new(mark(t[42], t[32])) },
            Protocol { number: 6, payload: none, class: Arc::new(mark(t[43], t[32])) },
            Protocol { number: 7, payload: none, class: Arc::new(mark(t[44], t[32])) },
        ]
    }

    /// The classes of NTP with the tokens `t`.
    fn with_tokens(t: &Vec<Token>) -> (c: NtpClasses)
        requires
            t@.len() == 45,
        ensures
            c.describes(t@),
    {
        let none = Token::null();
        let mut fields: Vec<Attr> = Vec::new();
        fields.push(field(t[4], t[5], Cast::bits(1, 6, u64::MAX), 0, 1));
        fields.push(field(t[6], none, Cast::bits(1, 3, 0x07), 0, 1));
        fields.push(field(t[7], t[5], Cast::bits(1, 0, 0x07), 0, 1));
        fields.push(field(t[8], none, Cast::uint8(), 1, 2));
        fields.push(field(t[9], none, Cast::uint8(), 2, 3));
        fields.push(field(t[10], none, Cast::uint8(), 3, 4));
        fields.push(field(t[11], none, Cast::uint32be(), 4, 8));
        fields.push(field(t[12], none, Cast::uint16be(), 4, 6));
        fields.push(field(t[13], none, Cast::uint16be(), 6, 8));
        fields.push(field(t[14], none, Cast::uint32be(), 8, 12));
        fields.push(field(t[15], none, Cast::uint16be(), 8, 10));
        fields.push(field(t[16], none, Cast::uint16be(), 10, 12));
        fields.push(field(t[19], t[20], Cast::uint64be(), 16, 24));
        fields.push(field(t[21], none, Cast::uint32be(), 16, 20));
        fields.push(field(t[22], none, Cast::uint32be(), 20, 24));
        fields.push(field(t[23], t[20], Cast::uint64be(), 24, 32));
        fields.push(field(t[24], none, Cast::uint32be(), 24, 28));
        fields.push(field(t[25], none, Cast::uint32be(), 28, 32));
        fields.push(field(t[26], t[20], Cast::uint64be(), 32, 40));
        fields.push(field(t[27], none, Cast::uint32be(), 32, 36));
        fields.push(field(t[28], none, Cast::uint32be(), 36, 40));
        fields.push(field(t[29], t[20], Cast::uint64be(), 40, 48));
        fields.push(field(t[30], none, Cast::uint32be(), 40, 44));
        fields.push(field(t[31], none, Cast::uint32be(), 44, 48));
        assert(fields@ =~= header_fields(t@));
        let class = LayerClass::builder(t[3]).headers(fields).build();
        let mut leaps: Vec<Protocol> = Vec::new();
        leaps.push(protocol(0, none, t[33], t[32]));
        leaps.push(protocol(1, none, t[34], t[32]));
        leaps.push(protocol(2, none, t[35], t[32]));
        leaps.push(protocol(3, none, t[36], t[32]));
        let mut modes: Vec<Protocol> = Vec::new();
        modes.push(protocol(0, none, t[37], t[32]));
        modes.push(protocol(1, none, t[38], t[32]));
        modes.push(protocol(2, none, t[39], t[32]));
        modes.push(protocol(3, none, t[40], t[32]));
        modes.push(protocol(4, none, t[41], t[32]));
        modes.push(protocol(5, none, t[42], t[32]));
        modes.push(protocol(6, none, t[43], t[32]));
        modes.push(protocol(7, none, t[44], t[32]));
        let c = NtpClasses {
            udp: t[0],
            udp_src: t[1],
            udp_dst: t[2],
            class: Arc::new(class),
            id: Arc::new(AttrClass::builder(t[17]).cast(Cast::Bytes).build()),
            id_ip: Arc::new(AttrClass::builder(t[17]).typ(t[18]).cast(Cast::Bytes).build()),
            leaps,
            modes,
        };
        assert(c.class@.aliases =~= Seq::<crate::layer::Alias>::empty());
        assert(c.class@.headers =~= header_fields(t@));
        assert(c.leaps@ =~= seq![
            Protocol { number: 0, payload: none, class: Arc::new(mark(t@[33], t@[32])) },
            Protocol { number: 1, payload: none, class: Arc::new(mark(t@[34], t@[32])) },
            Protocol { number: 2, payload: none, class: Arc::new(mark(t@[35], t@[32])) },
            Protocol { number: 3, payload: none, class: Arc::new(mark(t@[36], t@[32])) },
        ]);
        assert(c.modes@ =~= seq![
            Protocol { number: 0, payload: none, class: Arc::new(mark(t@[37], t@[32])) },
            Protocol { number: 1, payload: none, class: Arc::new(mark(t@[38], t@[32])) },
            Protocol { number: 2, payload: none, class: Arc::new(mark(t@[39], t@[32])) },
            Protocol { number: 3, payload: none, class: Arc::new(mark(t@[40], t@[32])) },
            Protocol { number: 4, payload: none, class: Arc::new(mark(t@[41], t@[32])) },
            Protocol { number: 5, payload: none, class: Arc::new(mark(t@[42], t@[32])) },
            Protocol { number: 6, payload: none, class: Arc::new(mark(t@[43], t@[32])) },
            Protocol { number: 7, payload: none, class: Arc::new(mark(t@[44], t@[32])) },
        ]);
        c
    }

    /// The classes of NTP, with the tokens that `names` gives to their names.
    pub fn new(names: &mut Interner) -> (c: NtpClasses)
        ensures
            old(names).names().is_prefix_of(final(names).names()),
            exists|t: Seq<Token>|
                Interner::all_named(final(names).names(), spec_names(), t) && c.describes(t),
    {
        let wanted = self::names();
        let tokens = names.intern_all(wanted.as_slice());
        let c = NtpClasses::with_tokens(&tokens);
        assert(Interner::all_named(names.names(), spec_names(), tokens@) && c.describes(tokens@));
        c
    }
}

impl NtpClasses {
    /// These classes are the classes `other`, name for name.
    pub open spec fn like(&self, other: NtpClasses) -> bool {
        &&& other.udp == self.udp
        &&& other.udp_src == self.udp_src
        &&& other.udp_dst == self.udp_dst
        &&& other.class == self.class
        &&& other.id == self.id
        &&& other.id_ip == self.id_ip
        &&& other.leaps@ == self.leaps@
        &&& other.modes@ == self.modes@
    }
}

impl Clone for NtpClasses {
    fn clone(&self) -> (c: NtpClasses)
        ensures
            self.like(c),
    {
        NtpClasses {
            udp: self.udp,
            udp_src: self.udp_src,
            udp_dst: self.udp_dst,
            class: self.class.clone(),
            id: self.id.clone(),
            id_ip: self.id_ip.clone(),
            leaps: copy(&self.leaps),
            modes: copy(&self.modes),
        }
    }
}

/// The attribute that a worker sees under `id`: that of the layer it decodes, else that
/// of the stack above it.
pub open spec fn seen(target: LayerModel, stack: Seq<LayerModel>, id: Token) -> Option<Attr> {
    match lookup(target, id) {
        Some(a) => Some(a),
        None => stack_attr(stack, id),
    }
}

/// The port that the attribute `attr` holds in `data`: a decode error without an
/// attribute, a bounds error where the data lacks its bytes, a cast error where the bytes
/// are no number that a port can be.
pub open spec fn port(attr: Option<Attr>, data: Slice) -> Result<u64, ErrorKind> {
    match attr {
        None => Err(ErrorKind::Decode),
        Some(a) => {
            if !a.fits(data@.len()) {
                Err(ErrorKind::Bounds)
            } else if !(a.class.cast.wf() && a.class.cast.spec_width() <= a.end - a.start) {
                Err(ErrorKind::Cast)
            } else {
                match a.value_in(data).spec_int() {
                    Some(v) => if 0 <= v <= u16::MAX {
                        Ok(v as u64)
                    } else {
                        Err(ErrorKind::Cast)
                    },
                    None => Err(ErrorKind::Cast),
                }
            }
        },
    }
}

/// `r` is the reading of a port that should be `wanted`.
pub open spec fn reads(r: Result<u64, Error>, wanted: Result<u64, ErrorKind>) -> bool {
    match wanted {
        Ok(m) => r matches Ok(n) && n == m,
        Err(kind) => r matches Err(e) && e.spec_kind() == kind,
    }
}

/// The port that `attr` holds in `data`.
fn read_port(attr: Option<&Attr>, data: &Slice) -> (r: Result<u64, Error>)
    ensures
        match attr {
            Some(a) => reads(r, port(Some(*a), *data)),
            None => reads(r, port(None, *data)),
        },
{
    let attr = match attr {
        Some(a) => a,
        None => {
            return Err(Error::new("no port"));
        },
    };
    let value = match attr.get(data) {
        Ok(v) => v,
        Err(e) => {
            return Err(e);
        },
    };
    match value.to_u64() {
        Ok(n) => {
            if n <= 0xffff {
                Ok(n)
            } else {
                Err(Error::wrong_type())
            }
        },
        Err(e) => Err(e),
    }
}

/// The mark of the number `number` in `marks`, on the first byte: no attribute where the
/// number has no mark.
pub open spec fn marked(marks: Seq<Protocol>, number: u64) -> Seq<Attr> {
    match find_protocol(marks, number) {
        Some(m) => seq![Attr { class: m.class, start: 0, end: 1 }],
        None => Seq::<Attr>::empty(),
    }
}

/// Decodes the first payload of a UDP layer into an NTP layer, where one of the ports is
/// that of NTP.
pub struct NtpWorker {
    pub classes: NtpClasses,
}

impl NtpWorker {
    /// The NTP layer on `data`, which has at least two bytes: it holds the marks of the
    /// leap indicator and of the mode, and the identifier of the reference, which is an
    /// address from the stratum 2 on.
    pub open spec fn child(&self, data: Slice) -> LayerModel {
        let first = data@[0];
        let identifier = if data@[1] >= 2 {
            self.classes.id_ip
        } else {
            self.classes.id
        };
        LayerModel {
            class: self.classes.class@,
            data,
            attrs: marked(self.classes.leaps@, (first / 64) as u64) + marked(
                self.classes.modes@,
                (first % 8) as u64,
            ) + seq![Attr { class: identifier, start: 12, end: 16 }],
            payloads: Seq::<Payload>::empty(),
        }
    }

    /// `r` is the worker's answer for the layer `target` under the stack `stack`. A layer
    /// that is not of UDP, or has no payload, is skipped. The ports are read, the source
    /// first, and a port that cannot be read is the error of the answer. A layer with
    /// neither port that of NTP is skipped. A payload of less than two bytes is a bounds
    /// error. Else the answer is the one layer on the payload.
    pub open spec fn answers(
        &self,
        target: LayerModel,
        stack: Seq<LayerModel>,
        r: Result<Status, Error>,
    ) -> bool {
        if target.class.id != self.classes.udp || target.payloads.len() == 0 {
            r matches Ok(Status::Skip)
        } else {
            match port(seen(target, stack, self.classes.udp_src), target.data) {
                Err(kind) => r matches Err(e) && e.spec_kind() == kind,
                Ok(src) => match port(seen(target, stack, self.classes.udp_dst), target.data) {
                    Err(kind) => r matches Err(e) && e.spec_kind() == kind,
                    Ok(dst) => {
                        if src != PORT && dst != PORT {
                            r matches Ok(Status::Skip)
                        } else if target.payloads[0].data@.len() < 2 {
                            r matches Err(e) && e.spec_kind() == ErrorKind::Bounds
                        } else {
                            r matches Ok(Status::Done(children)) && children@.len() == 1
                                && children@[0]@ == self.child(target.payloads[0].data)
                        }
                    },
                },
            }
        }
    }

    /// Adds to `child` the mark of `number` in `marks`.
    fn add_mark(child: &mut crate::layer::LayerBuilder, marks: &Vec<Protocol>, number: u64)
        ensures
            final(child).spec_build() == (LayerModel {
                attrs: old(child).spec_build().attrs + marked(marks@, number),
                ..old(child).spec_build()
            }),
    {
        let ghost before = child.spec_build();
        match crate::protocol::lookup(marks, number) {
            Some(m) => {
                child.add_attr(Attr::new(m.class.clone(), 0..1));
            },
            None => {},
        }
        assert(child.spec_build().attrs =~= before.attrs + marked(marks@, number));
    }

    /// The attribute that the worker sees under `id`.
    fn see<'a>(stack: &'a LayerStack, layer: &'a LayerProxy, id: Token) -> (r: Option<&'a Attr>)
        ensures
            match r {
                Some(a) => seen(layer.target(), stack@, id) == Some(*a),
                None => seen(layer.target(), stack@, id) is None,
            },
    {
        match layer.attr(id) {
            Some(a) => Some(a),
            None => stack.attr(id),
        }
    }
}

impl Worker for NtpWorker {
    open spec fn zero_copy(&self) -> bool {
        true
    }

    open spec fn may_answer(
        &self,
        target: LayerModel,
        stack: Seq<LayerModel>,
        r: Result<Status, Error>,
    ) -> bool {
        self.answers(target, stack, r)
    }

    open spec fn may_add(
        &self,
        target: LayerModel,
        stack: Seq<LayerModel>,
        attrs: Seq<Attr>,
        payloads: Seq<Payload>,
        children: Seq<LayerModel>,
    ) -> bool {
        attrs.len() == 0 && payloads.len() == 0 && children.len() == 0
    }

    /// Answers as `answers` says; the proxy is left as it was.
    fn decode(&mut self, ctx: &mut Context, stack: &LayerStack, layer: &mut LayerProxy) -> (r:
        Result<Status, Error>)
        ensures
            *final(layer) == *old(layer),
            *final(self) == *old(self),
            old(self).answers(old(layer).target(), stack@, r),
    {
        if layer.id() != self.classes.udp {
            return Ok(Status::Skip);
        }
        let payloads = layer.payloads();
        if payloads.len() == 0 {
            return Ok(Status::Skip);
        }
        let data = payloads[0].data();
        let whole = layer.data();
        let src = match read_port(Self::see(stack, layer, self.classes.udp_src), &whole) {
            Ok(n) => n,
            Err(e) => {
                return Err(e);
            },
        };
        let dst = match read_port(Self::see(stack, layer, self.classes.udp_dst), &whole) {
            Ok(n) => n,
            Err(e) => {
                return Err(e);
            },
        };
        if src != PORT && dst != PORT {
            return Ok(Status::Skip);
        }
        let first = match data.at(0) {
            Some(b) => b,
            None => {
                return Err(Error::out_of_bounds());
            },
        };
        let stratum = match data.at(1) {
            Some(b) => b,
            None => {
                return Err(Error::out_of_bounds());
            },
        };
        let mut child = Layer::new(self.classes.class.clone(), data);
        assert(child.spec_build().attrs + Seq::<Attr>::empty() =~= Seq::<Attr>::empty());
        Self::add_mark(&mut child, &self.classes.leaps, (first / 64) as u64);
        Self::add_mark(&mut child, &self.classes.modes, (first % 8) as u64);
        if stratum >= 2 {
            child.add_attr(Attr::new(self.classes.id_ip.clone(), 12..16));
        } else {
            child.add_attr(Attr::new(self.classes.id.clone(), 12..16));
        }
        let child = child.build();
        proof {
            assert(child@.attrs =~= old(self).child(data).attrs);
        }
        let mut children: Vec<Layer> = Vec::new();
        children.push(child);
        assert(crate::layer::models(children@)[0] == child@);
        Ok(Status::Done(children))
    }
}

/// Makes NTP workers, which run on any thread.
pub struct NtpDecoder {
    pub classes: NtpClasses,
}

impl NtpDecoder {
    /// A decoder whose classes have the tokens that `names` gives to their names.
    pub fn new(names: &mut Interner) -> (d: NtpDecoder)
        ensures
            old(names).names().is_prefix_of(final(names).names()),
            exists|t: Seq<Token>|
                Interner::all_named(final(names).names(), spec_names(), t) && d.classes.describes(
                    t,
                ),
    {
        let classes = NtpClasses::new(names);
        NtpDecoder { classes }
    }
}

impl NtpDecoder {
    /// The classes of the decoder have the tokens that the table `names` gives to their
    /// names.
    pub open spec fn knows(&self, names: Seq<Seq<char>>) -> bool {
        exists|t: Seq<Token>| Interner::all_named(names, spec_names(), t) && self.classes.describes(t)
    }

    /// The box `d` holds a decoder of NTP whose classes have the tokens that the table
    /// `names` gives to their names: it says of itself what that decoder says.
    pub open spec fn held_in(d: DecoderBox, names: Seq<Seq<char>>) -> bool {
        exists|c: NtpClasses| #[trigger] Self::boxes(d, c) && Self::named(c, names)
    }

    /// The classes `c` have the tokens that the table `names` gives to their names.
    pub open spec fn named(c: NtpClasses, names: Seq<Seq<char>>) -> bool {
        exists|t: Seq<Token>| Interner::all_named(names, spec_names(), t) && c.describes(t)
    }

    /// The box `d` holds a decoder with the classes `c`: its workers copy no bytes, run
    /// on any thread, add nothing, and answer as a worker with these classes does.
    pub open spec fn boxes(d: DecoderBox, c: NtpClasses) -> bool {
        &&& d.zero_copy()
        &&& forall|t: ExecType| #[trigger] d.may_declare(t) == (t == ExecType::ParallelSync)
        &&& forall|t: LayerModel, s: Seq<LayerModel>, a: Result<Status, Error>| #[trigger]
            d.worker_may_answer(t, s, a) == (exists|w: NtpWorker| #[trigger]
                w.answers(t, s, a) && c.like(w.classes))
        &&& forall|
            t: LayerModel,
            s: Seq<LayerModel>,
            x: Seq<Attr>,
            y: Seq<Payload>,
            z: Seq<LayerModel>,
        | #[trigger]
            d.worker_may_add(t, s, x, y, z) == (x.len() == 0 && y.len() == 0 && z.len() == 0)
    }

    /// The decoder in a box, as `boxed` gives it. Where the classes of the decoder have
    /// the tokens that the table of `names` gives to their names, the box holds a decoder
    /// for that table.
    pub fn boxed_in(self, names: &Interner) -> (d: DecoderBox)
        ensures
            d.zero_copy(),
            d.holds(self),
            self.knows(names.names()) ==> Self::held_in(d, names.names()),
    {
        let ghost inner = self;
        let d = self.boxed();
        assert(Self::boxes(d, inner.classes));
        assert(inner.knows(names.names()) ==> Self::boxes(d, inner.classes) && Self::named(
            inner.classes,
            names.names(),
        ));
        d
    }

    /// The decoder in a box, whose workers copy no bytes and run on any thread.
    pub fn boxed(self) -> (d: DecoderBox)
        ensures
            d.zero_copy(),
            d.holds(self),
    {
        DecoderBox::from_box(Box::new(self))
    }
}

impl Clone for NtpDecoder {
    fn clone(&self) -> (d: NtpDecoder) {
        NtpDecoder { classes: self.classes.clone() }
    }
}

impl Decoder for NtpDecoder {
    open spec fn zero_copy(&self) -> bool {
        true
    }

    open spec fn may_declare(&self, t: ExecType) -> bool {
        t == ExecType::ParallelSync
    }

    open spec fn worker_may_answer(
        &self,
        target: LayerModel,
        stack: Seq<LayerModel>,
        a: Result<Status, Error>,
    ) -> bool {
        exists|w: NtpWorker| #[trigger] w.answers(target, stack, a) && self.classes.like(w.classes)
    }

    open spec fn worker_may_add(
        &self,
        target: LayerModel,
        stack: Seq<LayerModel>,
        attrs: Seq<Attr>,
        payloads: Seq<Payload>,
        children: Seq<LayerModel>,
    ) -> bool {
        attrs.len() == 0 && payloads.len() == 0 && children.len() == 0
    }

    fn new_worker(&self, ctx: &Context) -> (w: WorkerBox) {
        let worker = NtpWorker { classes: self.classes.clone() };
        let ghost made = worker;
        let w = WorkerBox::new(Box::new(worker));
        assert forall|t: LayerModel, s: Seq<LayerModel>, a: Result<Status, Error>| #[trigger]
            w.may_answer(t, s, a) implies self.worker_may_answer(t, s, a) by {
            assert(made.answers(t, s, a) && self.classes.like(made.classes));
        }
        w
    }

    fn execution_type(&self) -> (t: ExecType)
        ensures
            t == ExecType::ParallelSync,
    {
        ExecType::ParallelSync
    }
}

/// A box that holds a decoder of NTP for the table `names` holds one for any table
/// that begins with `names`.
pub proof fn lemma_held_kept(d: DecoderBox, names: Seq<Seq<char>>, more: Seq<Seq<char>>)
    requires
        NtpDecoder::held_in(d, names),
        names.is_prefix_of(more),
    ensures
        NtpDecoder::held_in(d, more),
{
    let c = choose|c: NtpClasses|
        #[trigger] NtpDecoder::boxes(d, c) && NtpDecoder::named(c, names);
    let t = choose|t: Seq<Token>| Interner::all_named(names, spec_names(), t) && c.describes(t);
    crate::token::lemma_named_kept(names, more, spec_names(), t);
    assert(NtpDecoder::boxes(d, c) && NtpDecoder::named(c, more));
}

} // verus!
