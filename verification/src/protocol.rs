//! What the decoders of the single protocols share: tables of the protocols that a layer
//! may carry, and the search for the payload that a decoder claims.
use crate::attr::{Attr, AttrClass};
use crate::cast::Cast;
use crate::layer::Payload;
use crate::token::Token;
use std::sync::Arc;
use vstd::prelude::*;

verus! {

/// A protocol that a layer may carry: its number in the carrying layer, the name under
/// which its payload is handed on, and the class of the attribute that marks it.
pub struct Protocol {
    pub number: u64,
    pub payload: Token,
    pub class: Arc<AttrClass>,
}

/// The first of `protocols` with the number `number`.
pub open spec fn find_protocol(protocols: Seq<Protocol>, number: u64) -> Option<Protocol>
    decreases protocols.len(),
{
    if protocols.len() == 0 {
        None
    } else if protocols[0].number == number {
        Some(protocols[0])
    } else {
        find_protocol(protocols.skip(1), number)
    }
}

/// The class of an attribute that marks something by being there: named `id`, of the type
/// `novalue`, with the value true.
pub open spec fn mark(id: Token, novalue: Token) -> AttrClass {
    AttrClass { id, typ: novalue, cast: Cast::Const(true) }
}

/// The attribute on the bytes from `start` up to `end` whose class is named `id`, of the
/// type `typ`, with the cast `cast`.
pub open spec fn spec_field(id: Token, typ: Token, cast: Cast, start: usize, end: usize) -> Attr {
    Attr { class: Arc::new(AttrClass { id, typ, cast }), start, end }
}

/// The first payload named `id`.
pub open spec fn find_payload(payloads: Seq<Payload>, id: Token) -> Option<Payload>
    decreases payloads.len(),
{
    if payloads.len() == 0 {
        None
    } else if payloads[0].id == id {
        Some(payloads[0])
    } else {
        find_payload(payloads.skip(1), id)
    }
}

/// The first payload of the kind `typ`.
pub open spec fn find_payload_of(payloads: Seq<Payload>, typ: Token) -> Option<Payload>
    decreases payloads.len(),
{
    if payloads.len() == 0 {
        None
    } else if payloads[0].typ == typ {
        Some(payloads[0])
    } else {
        find_payload_of(payloads.skip(1), typ)
    }
}

/// The payload that a search by name finds is one of the payloads.
pub proof fn lemma_find_payload(payloads: Seq<Payload>, id: Token)
    ensures
        find_payload(payloads, id) matches Some(p) ==> payloads.contains(p) && p.id == id,
    decreases payloads.len(),
{
    if payloads.len() > 0 && payloads[0].id != id {
        let rest = payloads.skip(1);
        lemma_find_payload(rest, id);
        if let Some(p) = find_payload(rest, id) {
            let k = choose|k: int| 0 <= k < rest.len() && rest[k] == p;
            assert(payloads[k + 1] == p);
        }
    }
}

/// The protocol with the given number and payload name, marked by an attribute named `id`.
pub fn protocol(number: u64, payload: Token, id: Token, novalue: Token) -> (p: Protocol)
    ensures
        p == (Protocol { number, payload, class: Arc::new(mark(id, novalue)) }),
{
    Protocol {
        number,
        payload,
        class: Arc::new(AttrClass::builder(id).typ(novalue).cast(Cast::Const(true)).build()),
    }
}

/// The attribute on the bytes from `start` up to `end` whose class is named `id`, of the
/// type `typ`, with the cast `cast`.
pub fn field(id: Token, typ: Token, cast: Cast, start: usize, end: usize) -> (a: Attr)
    ensures
        a == spec_field(id, typ, cast, start, end),
{
    Attr::new(Arc::new(AttrClass::builder(id).typ(typ).cast(cast).build()), start..end)
}

/// The first of `protocols` with the number `number`.
pub fn lookup(protocols: &Vec<Protocol>, number: u64) -> (r: Option<&Protocol>)
    ensures
        match r {
            Some(p) => find_protocol(protocols@, number) == Some(*p),
            None => find_protocol(protocols@, number) is None,
        },
{
    let mut i: usize = 0;
    assert(protocols@.skip(0) =~= protocols@);
    while i < protocols.len()
        invariant
            i <= protocols@.len(),
            find_protocol(protocols@, number) == find_protocol(protocols@.skip(i as int), number),
        decreases protocols@.len() - i,
    {
        assert(protocols@.skip(i as int)[0] == protocols@[i as int]);
        if protocols[i].number == number {
            return Some(&protocols[i]);
        }
        assert(protocols@.skip(i as int).skip(1) =~= protocols@.skip(i + 1));
        i = i + 1;
    }
    None
}

/// A copy of `protocols` that shares the classes.
pub fn copy(protocols: &Vec<Protocol>) -> (r: Vec<Protocol>)
    ensures
        r@ == protocols@,
{
    let mut r: Vec<Protocol> = Vec::new();
    let mut i: usize = 0;
    while i < protocols.len()
        invariant
            i <= protocols@.len(),
            r@ == protocols@.take(i as int),
        decreases protocols@.len() - i,
    {
        let p = &protocols[i];
        r.push(Protocol { number: p.number, payload: p.payload, class: p.class.clone() });
        assert(r@ =~= protocols@.take(i + 1));
        i = i + 1;
    }
    assert(protocols@.take(i as int) =~= protocols@);
    r
}

/// The first of `payloads` that is named `id`.
pub fn payload_named(payloads: &[Payload], id: Token) -> (r: Option<Payload>)
    ensures
        r == find_payload(payloads@, id),
{
    let mut i: usize = 0;
    assert(payloads@.skip(0) =~= payloads@);
    while i < payloads.len()
        invariant
            i <= payloads@.len(),
            find_payload(payloads@, id) == find_payload(payloads@.skip(i as int), id),
        decreases payloads@.len() - i,
    {
        assert(payloads@.skip(i as int)[0] == payloads@[i as int]);
        if payloads[i].id == id {
            return Some(payloads[i]);
        }
        assert(payloads@.skip(i as int).skip(1) =~= payloads@.skip(i + 1));
        i = i + 1;
    }
    None
}

/// The first of `payloads` that is of the kind `typ`.
pub fn payload_of(payloads: &[Payload], typ: Token) -> (r: Option<Payload>)
    ensures
        r == find_payload_of(payloads@, typ),
{
    let mut i: usize = 0;
    assert(payloads@.skip(0) =~= payloads@);
    while i < payloads.len()
        invariant
            i <= payloads@.len(),
            find_payload_of(payloads@, typ) == find_payload_of(payloads@.skip(i as int), typ),
        decreases payloads@.len() - i,
    {
        assert(payloads@.skip(i as int)[0] == payloads@[i as int]);
        if payloads[i].typ == typ {
            return Some(payloads[i]);
        }
        assert(payloads@.skip(i as int).skip(1) =~= payloads@.skip(i + 1));
        i = i + 1;
    }
    None
}

} // verus!
