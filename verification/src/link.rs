//! The link layer: the first layer of a frame, as a reader of captures makes it.
use crate::attr::Attr;
use crate::cast::Cast;
use crate::layer::{Layer, LayerBuilder, LayerClass, LayerClassModel, LayerModel, Payload};
use crate::protocol::{field, spec_field};
use crate::slice::Slice;
use crate::token::{Interner, Token};
use std::sync::Arc;
use vstd::prelude::*;

verus! {

/// The digit of the number `d`, which is below ten.
pub open spec fn digit(d: nat) -> char {
    if d == 0 {
        '0'
    } else if d == 1 {
        '1'
    } else if d == 2 {
        '2'
    } else if d == 3 {
        '3'
    } else if d == 4 {
        '4'
    } else if d == 5 {
        '5'
    } else if d == 6 {
        '6'
    } else if d == 7 {
        '7'
    } else if d == 8 {
        '8'
    } else {
        '9'
    }
}

/// The number `n` in decimal digits, without zeros in front.
pub open spec fn decimal(n: nat) -> Seq<char>
    decreases n,
{
    if n < 10 {
        seq![digit(n)]
    } else {
        decimal(n / 10).push(digit(n % 10))
    }
}

/// The name of the class of the link layers of the link type `link`: `[link-` and the
/// number and `]`.
pub open spec fn link_name(link: u32) -> Seq<char> {
    "[link-"@ + decimal(link as nat) + "]"@
}

/// `format!` of std with the pattern `{}` and one unsigned number: the number in decimal
/// digits, without zeros in front.
#[verifier::external_body]
fn format_decimal(n: u32) -> (s: String)
    ensures
        s@ == decimal(n as nat),
{
    format!("{}", n)
}

/// The name of the class of the link layers of the link type `link`.
pub fn link_class_name(link: u32) -> (s: String)
    ensures
        s@ == link_name(link),
{
    let digits = format_decimal(link);
    let mut name = String::from_str("[link-");
    name.append(digits.as_str());
    name.append("]");
    name
}

/// What a capture says of one frame.
#[derive(Clone, Copy, Debug)]
pub struct CaptureHeader {
    /// The number of bytes that were captured.
    pub datalen: u32,
    /// The number of bytes that the frame had on the wire.
    pub actlen: u32,
    /// The time of the capture: seconds, and millionths of a second.
    pub ts_sec: u32,
    pub ts_usec: u32,
}

/// The names and the class of the link layers of one link type.
pub struct LinkClasses {
    pub class: Arc<LayerClass>,
    /// The name of the attribute that holds the length on the wire.
    pub length: Token,
    /// The name of the attribute that holds the time of the capture, and of its type.
    pub timestamp: Token,
    pub datetime: Token,
}

impl LinkClasses {
    /// The classes are those of the link type `link`, with the tokens that the names have
    /// in `names`.
    pub open spec fn describes(&self, names: Seq<Seq<char>>, link: u32) -> bool {
        &&& self.class@ == (LayerClassModel {
            id: Interner::token_of(names, link_name(link)),
            aliases: Seq::<crate::layer::Alias>::empty(),
            headers: seq![
                spec_field(
                    Interner::token_of(names, "link.type"@),
                    Token { id: 0 },
                    Cast::Signed(link as i64),
                    0,
                    0,
                ),
            ],
        })
        &&& self.length == Interner::token_of(names, "link.length"@)
        &&& self.timestamp == Interner::token_of(names, "link.timestamp"@)
        &&& self.datetime == Interner::token_of(names, "@datetime:unix"@)
    }

    /// The classes of the link type `link`, with the tokens that `names` gives to their
    /// names.
    pub fn new(names: &mut Interner, link: u32) -> (c: LinkClasses)
        ensures
            old(names).names().is_prefix_of(final(names).names()),
            c.describes(final(names).names(), link),
    {
        let name = link_class_name(link);
        let wanted = [name.as_str(), "link.type", "link.length", "link.timestamp", "@datetime:unix"];
        let t = names.intern_all(wanted.as_slice());
        let mut headers: Vec<Attr> = Vec::new();
        headers.push(field(t[1], Token::null(), Cast::Signed(link as i64), 0, 0));
        let class = LayerClass::builder(t[0]).headers(headers).build();
        let c = LinkClasses {
            class: Arc::new(class),
            length: t[2],
            timestamp: t[3],
            datetime: t[4],
        };
        proof {
            assert(wanted@[0]@ == link_name(link));
            assert(wanted@[1]@ == "link.type"@);
            assert(wanted@[2]@ == "link.length"@);
            assert(wanted@[3]@ == "link.timestamp"@);
            assert(wanted@[4]@ == "@datetime:unix"@);
            assert(c.class@.aliases =~= Seq::<crate::layer::Alias>::empty());
            assert(c.class@.headers =~= seq![
                spec_field(
                    Interner::token_of(names.names(), "link.type"@),
                    Token { id: 0 },
                    Cast::Signed(link as i64),
                    0,
                    0,
                ),
            ]);
        }
        c
    }

    /// The link layer of a frame: it covers `data` and holds the length on the wire and
    /// the time of the capture, given as the bits of a floating-point number of seconds.
    pub open spec fn layer_on(&self, data: Slice, actlen: u32, time: u64) -> LayerModel {
        LayerModel {
            class: self.class@,
            data,
            attrs: seq![
                spec_field(self.length, Token { id: 0 }, Cast::Unsigned(actlen as u64), 0, 0),
                spec_field(self.timestamp, self.datetime, Cast::Float(time), 0, 0),
            ],
            payloads: Seq::<Payload>::empty(),
        }
    }

    /// The link layer of the frame with the header `header` and the bytes `data`, which
    /// are given up for good; `time` holds the bits of the time of the capture in seconds.
    pub fn frame_layer(&self, header: &CaptureHeader, data: Vec<u8>, time: u64) -> (b: LayerBuilder)
        ensures
            b.spec_build().data@ == data@,
            b.spec_build().data.offset() == 0,
            b.spec_build() == self.layer_on(b.spec_build().data, header.actlen, time),
            crate::layer::in_place(b.spec_build(), b.spec_build().data.buffer()),
    {
        let mut b = Layer::new(self.class.clone(), Slice::from_vec(data));
        b.add_attr(field(self.length, Token::null(), Cast::Unsigned(header.actlen as u64), 0, 0));
        b.add_attr(field(self.timestamp, self.datetime, Cast::Float(time), 0, 0));
        assert(b.spec_build().attrs =~= self.layer_on(
            b.spec_build().data,
            header.actlen,
            time,
        ).attrs);
        b
    }
}

} // verus!
