//! The decoders that come with the library, as one profile.
use crate::attr::Attr;
use crate::decoder::Status;
use crate::dispatcher::{
    claimant, decoded, dissected, lemma_claims_of_given, offspring, visited, was_dissected,
    Claim, Dispatcher, Expansion, OnceRunner, Runner,
};
use crate::error::Error;
use crate::eth::{EthClasses, EthDecoder, EthWorker};
use crate::tree::{first_child, lemma_total_step};
use crate::frame::{Frame, FrameModel};
use crate::ipv4::{Ipv4Classes, Ipv4Decoder, Ipv4Worker};
use crate::layer::{grew, LayerModel, Payload};
use crate::protocol::{find_payload, find_protocol};
use crate::link::{CaptureHeader, LinkClasses};
use crate::ntp::NtpDecoder;
use crate::profile::Profile;
use crate::tcp::TcpDecoder;
use crate::decoder::DecoderBox;
use crate::token::Interner;
use vstd::prelude::*;

verus! {

/// `decoders` holds the decoders of Ethernet, IPv4, TCP and NTP, in this order, whose
/// classes have the tokens that the table `names` gives to their names.
pub open spec fn stocked(decoders: Seq<DecoderBox>, names: Seq<Seq<char>>) -> bool {
    &&& decoders.len() == 4
    &&& EthDecoder::held_in(decoders[0], names)
    &&& Ipv4Decoder::held_in(decoders[1], names)
    &&& TcpDecoder::held_in(decoders[2], names)
    &&& NtpDecoder::held_in(decoders[3], names)
}

/// A profile of `concurrency` threads with the decoders of Ethernet, IPv4, TCP and NTP, in
/// this order, as `stocked` says, whose names are interned in `names`. None of their
/// workers copies bytes.
pub fn profile(names: &mut Interner, concurrency: u32) -> (p: Profile)
    ensures
        old(names).names().is_prefix_of(final(names).names()),
        p.spec_concurrency() == concurrency,
        p.decoder_count() == 4,
        stocked(p.spec_decoders(), final(names).names()),
        p.settings().len() == 0,
        p.zero_copy(),
{
    let mut p = Profile::with_concurrency(concurrency);
    let eth = EthDecoder::new(names).boxed_in(names);
    let ghost first = names.names();
    p.add_decoder(eth);
    let ipv4 = Ipv4Decoder::new(names).boxed_in(names);
    let ghost second = names.names();
    p.add_decoder(ipv4);
    let tcp = TcpDecoder::new(names).boxed_in(names);
    let ghost third = names.names();
    p.add_decoder(tcp);
    let ntp = NtpDecoder::new(names).boxed_in(names);
    p.add_decoder(ntp);
    proof {
        let last = names.names();
        assert(old(names).names().is_prefix_of(first));
        assert(first.is_prefix_of(second));
        assert(second.is_prefix_of(third));
        assert(third.is_prefix_of(last));
        assert(first.is_prefix_of(last));
        assert(second.is_prefix_of(last));
        crate::eth::lemma_held_kept(eth, first, last);
        crate::ipv4::lemma_held_kept(ipv4, second, last);
        crate::tcp::lemma_held_kept(tcp, third, last);
    }
    p
}

/// The frame numbered `index` of a capture, dissected: its first layer is the link layer on
/// `data`, which is given up for good. Where no worker of the dispatcher copies bytes, as
/// with the decoders of `profile`, every layer of the frame and every payload looks at
/// these very bytes.
pub fn dissect_capture(
    dispatcher: &mut Dispatcher,
    classes: &LinkClasses,
    index: u32,
    header: &CaptureHeader,
    data: Vec<u8>,
    time: u64,
) -> (frame: Frame)
    ensures
        final(dispatcher).spec_runners().len() == old(dispatcher).spec_runners().len(),
        was_dissected(
            old(dispatcher).spec_runners(),
            final(dispatcher).spec_runners(),
            (FrameModel {
                index,
                data: frame@.data,
                layers: seq![classes.layer_on(frame@.data, header.actlen, time)],
                tree_indices: Seq::<u8>::empty(),
            }),
            frame@,
        ),
        frame@.index == index,
        frame@.data@ == data@,
        frame@.data.offset() == 0,
        frame@.layers.len() >= 1,
        grew(frame@.layers[0], classes.layer_on(frame@.data, header.actlen, time)),
        old(dispatcher).zero_copy() ==> final(dispatcher).zero_copy() && frame@.in_place(),
{
    let root = classes.frame_layer(header, data, time).build();
    let ghost before = FrameModel {
        index,
        data: root@.data,
        layers: seq![root@],
        tree_indices: Seq::<u8>::empty(),
    };
    let frame = dispatcher.dissect(index, root);
    proof {
        let e = choose|e: Expansion|
            dissected(
                old(dispatcher).spec_runners(),
                dispatcher.spec_runners(),
                before,
                frame@,
                e,
            );
        assert(grew(frame@.layers[0], before.layers[0]));
    }
    frame
}

/// A frame whose one layer is too short for the header of Ethernet stays as it is, where
/// the decoder of Ethernet is the only one: its worker skips the layer or fails, which is
/// no claim, so the frame holds the layer alone, unchanged, with no child.
pub proof fn lemma_short_layer_stays_alone(
    runners: Seq<OnceRunner>,
    left: Seq<OnceRunner>,
    before: FrameModel,
    after: FrameModel,
    e: Expansion,
    classes: EthClasses,
)
    requires
        dissected(runners, left, before, after, e),
        runners.len() == 1,
        runners[0].inner().tied(),
        EthDecoder::boxes(runners[0].inner().spec_decoder(), classes),
        before.layers.len() == 1,
        before.layers[0].data@.len() < crate::eth::HEADER_LENGTH,
        before.tree_indices.len() == 0,
    ensures
        after.layers == before.layers,
        after.tree_indices == seq![0u8],
{
    reveal(decoded);
    let trace = e.spec_traces()[0];
    let fanout = e.spec_fanout();
    assert(visited(
        1,
        e.spec_states(),
        e.stack_of(0),
        e.spec_born(),
        e.spec_layers(),
        fanout,
        e.spec_traces(),
        0,
    ));
    lemma_claims_of_given(e, runners, left, before.layers, 0);
    if trace.len() > 0 {
        let c = trace[0];
        assert(trace.take(0).len() == 0);
        assert(c.seen == before.layers[0]);
        let runner = runners[0].inner();
        assert(runner.step(c.seen, e.stack_of(0), c.answer, c.attrs, c.payloads, c.own));
        if runner.has_worker() {
            assert(runner.spec_decoder().worker_may_answer(c.seen, e.stack_of(0), c.answer));
            let w = choose|w: EthWorker| #[trigger]
                w.answers(c.seen, c.answer) && classes.like(w.classes());
            assert(false);
        }
        assert(false);
    }
    assert(offspring(trace).len() == 0);
    assert(fanout[0] == 0);
    assert(fanout.take(0) =~= Seq::<usize>::empty());
    if fanout.len() > 1 {
        assert(fanout.take(1) =~= seq![fanout[0]]);
        assert(fanout.take(1).drop_last() =~= Seq::<usize>::empty());
        assert(first_child(1, fanout, 1) == 1);
        assert(false);
    }
    assert(after.layers =~= before.layers);
    assert(after.tree_indices =~= seq![0u8]);
}

/// A claim of a layer without a payload named for IPv4 is none of a worker of IPv4, and
/// a claim of a worker of Ethernet is one of a link layer with a whole header, whose one
/// child is the Ethernet layer. Neither worker adds anything through the proxy.
proof fn lemma_claim_of_ethernet(runner: Runner, classes: EthClasses, stack: Seq<LayerModel>, c: Claim)
    requires
        runner.has_worker(),
        runner.tied(),
        EthDecoder::boxes(runner.spec_decoder(), classes),
        runner.step(c.seen, stack, c.answer, c.attrs, c.payloads, c.own),
        c.answer matches Ok(Status::Done(_)),
    ensures
        c.seen.class.id == classes.link,
        c.seen.data@.len() >= crate::eth::HEADER_LENGTH,
        c.left() == c.seen,
        c.children().len() == 1,
        exists|w: EthWorker| classes.like(w.classes()) && c.children()[0] == #[trigger] w.child(
            c.seen.data,
        ),
{
    assert(runner.spec_decoder().worker_may_answer(c.seen, stack, c.answer));
    assert(runner.spec_decoder().worker_may_add(c.seen, stack, c.attrs, c.payloads, c.own));
    let w = choose|w: EthWorker| #[trigger]
        w.answers(c.seen, c.answer) && classes.like(w.classes());
    assert(c.seen.attrs + c.attrs =~= c.seen.attrs);
    assert(c.seen.payloads + c.payloads =~= c.seen.payloads);
    assert(c.children() =~= Runner::handed(c.answer));
    assert(c.children()[0] == w.child(c.seen.data));
}

/// A claim of a worker of IPv4 is one of a layer that has a payload named for IPv4. The
/// worker adds nothing through the proxy, and where the payload carries no known
/// protocol, the claim has no child.
proof fn lemma_claim_of_ipv4(runner: Runner, classes: Ipv4Classes, stack: Seq<LayerModel>, c: Claim)
    requires
        runner.has_worker(),
        runner.tied(),
        Ipv4Decoder::boxes(runner.spec_decoder(), classes),
        runner.step(c.seen, stack, c.answer, c.attrs, c.payloads, c.own),
        c.answer matches Ok(Status::Done(_)),
    ensures
        find_payload(c.seen.payloads, classes.payload) is Some,
        c.left() == c.seen,
        ({
            let p = find_payload(c.seen.payloads, classes.payload)->Some_0;
            p.data@.len() > crate::ipv4::PROTOCOL_AT && find_protocol(
                classes.types@,
                p.data@[crate::ipv4::PROTOCOL_AT as int] as u64,
            ) is None
        }) ==> c.children().len() == 0,
{
    assert(runner.spec_decoder().worker_may_answer(c.seen, stack, c.answer));
    assert(runner.spec_decoder().worker_may_add(c.seen, stack, c.attrs, c.payloads, c.own));
    let w = choose|w: Ipv4Worker| #[trigger]
        w.answers(c.seen, c.answer) && classes.like(w.classes());
    assert(c.seen.attrs + c.attrs =~= c.seen.attrs);
    assert(c.seen.payloads + c.payloads =~= c.seen.payloads);
    assert(c.children() =~= Runner::handed(c.answer));
}

/// A frame of Ethernet that carries IPv4 with no known protocol, dissected by the
/// decoders of Ethernet and of IPv4, has two layers: the link layer as it was, with one
/// child, and the Ethernet layer, which the worker of IPv4 claims and which has no child.
pub proof fn lemma_ethernet_then_ipv4(
    runners: Seq<OnceRunner>,
    left: Seq<OnceRunner>,
    before: FrameModel,
    after: FrameModel,
    e: Expansion,
    eth: EthClasses,
    ip: Ipv4Classes,
)
    requires
        dissected(runners, left, before, after, e),
        before.tree_indices.len() == 0,
        runners.len() == 2,
        runners[0].inner().has_worker(),
        runners[0].inner().tied(),
        EthDecoder::boxes(runners[0].inner().spec_decoder(), eth),
        runners[1].inner().has_worker(),
        runners[1].inner().tied(),
        Ipv4Decoder::boxes(runners[1].inner().spec_decoder(), ip),
        before.layers.len() == 1,
        before.layers[0].class.id == eth.link,
        before.layers[0].payloads.len() == 0,
        before.layers[0].data@.len() >= crate::eth::HEADER_LENGTH,
        find_protocol(eth.types@, EthWorker::number(before.layers[0].data)) matches Some(t)
            && t.payload == ip.payload,
        ({
            let data = before.layers[0].data;
            let rest = data.spec_narrow(crate::eth::HEADER_LENGTH, data@.len() as usize);
            rest@.len() > crate::ipv4::PROTOCOL_AT && find_protocol(
                ip.types@,
                rest@[crate::ipv4::PROTOCOL_AT as int] as u64,
            ) is None
        }),
    ensures
        after.layers.len() == 2,
        after.layers[0] == before.layers[0],
        after.tree_indices == seq![1u8, 0u8],
{
    reveal(decoded);
    let link = before.layers[0];
    let fanout = e.spec_fanout();
    let states = e.spec_states();
    let born = e.spec_born();
    let layers = e.spec_layers();
    let r0 = runners[0].inner();
    let r1 = runners[1].inner();
    lemma_claims_of_given(e, runners, left, before.layers, 0);
    assert(visited(1, states, e.stack_of(0), born, layers, fanout, e.spec_traces(), 0));
    let t0 = e.spec_traces()[0];
    let st0 = e.stack_of(0);
    if t0.len() > 0 {
        let c = t0[0];
        assert(t0.take(0).len() == 0);
        assert(c.seen == link);
        if c.runner == 1 {
            lemma_claim_of_ipv4(r1, ip, st0, c);
            assert(false);
        }
        lemma_claim_of_ethernet(r0, eth, st0, c);
        if t0.len() > 1 {
            let d = t0[1];
            assert(t0.take(1).last() == c);
            assert(d.seen == link);
            assert(d.runner != c.runner);
            lemma_claim_of_ipv4(r1, ip, st0, d);
            assert(false);
        }
        assert(layers[0] == link);
    }
    assert(layers[0] == link);
    if !states[1][0].used() {
        let (a, x, y, z) = choose|
            a: Result<Status, Error>,
            x: Seq<Attr>,
            y: Seq<Payload>,
            z: Seq<LayerModel>,
        | #[trigger]
            r0.step(link, st0, a, x, y, z) && !(a matches Ok(Status::Done(_)));
        assert(r0.spec_decoder().worker_may_answer(link, st0, a));
        let w = choose|w: EthWorker| #[trigger] w.answers(link, a) && eth.like(w.classes());
        assert(false);
    }
    assert(claimant(t0, 0));
    assert(t0.len() == 1);
    let c = t0[0];
    let w = choose|w: EthWorker| eth.like(w.classes()) && c.children()[0] == #[trigger] w.child(
        link.data,
    );
    assert(t0.drop_last().len() == 0);
    assert(offspring(t0.drop_last()).len() == 0);
    assert(t0.last() == c);
    assert(offspring(t0) =~= c.children());
    assert(fanout[0] == 1);
    assert(fanout.take(0) =~= Seq::<usize>::empty());
    assert(first_child(1, fanout, 0) == 1);
    let child = born[1];
    assert(child == born.subrange(1, 2)[0]);
    assert(child == w.child(link.data));
    assert(child.payloads[0].id == ip.payload);
    assert(find_payload(child.payloads, ip.payload) == Some(child.payloads[0]));

    lemma_claims_of_given(e, runners, left, before.layers, 1);
    assert(visited(1, states, e.stack_of(1), born, layers, fanout, e.spec_traces(), 1));
    let t1 = e.spec_traces()[1];
    let st1 = e.stack_of(1);
    assert(!states[1][1].used());
    if t1.len() > 0 {
        let d = t1[0];
        assert(t1.take(0).len() == 0);
        assert(d.seen == child);
        assert(d.runner == 1);
        lemma_claim_of_ipv4(r1, ip, st1, d);
        if t1.len() > 1 {
            assert(t1[1].runner != d.runner);
            assert(false);
        }
        assert(t1.drop_last().len() == 0);
        assert(offspring(t1.drop_last()).len() == 0);
        assert(t1.last() == d);
        assert(offspring(t1) =~= d.children());
        assert(layers[1] == child);
    }
    assert(layers[1] == child);
    if !states[2][1].used() {
        let (a, x, y, z) = choose|
            a: Result<Status, Error>,
            x: Seq<Attr>,
            y: Seq<Payload>,
            z: Seq<LayerModel>,
        | #[trigger]
            r1.step(child, st1, a, x, y, z) && !(a matches Ok(Status::Done(_)));
        assert(r1.spec_decoder().worker_may_answer(child, st1, a));
        let v = choose|v: Ipv4Worker| #[trigger] v.answers(child, a) && ip.like(v.classes());
        assert(false);
    }
    assert(claimant(t1, 1));
    assert(offspring(t1).len() == 0);
    assert(fanout[1] == 0);
    assert(fanout.take(1) =~= seq![fanout[0]]);
    assert(fanout.take(1).drop_last() =~= Seq::<usize>::empty());
    if fanout.len() > 2 {
        lemma_total_step(fanout, 1);
        assert(first_child(1, fanout, 2) == 2);
        assert(false);
    }
    assert(after.layers[0] == before.layers[0]);
    assert(after.tree_indices =~= seq![1u8, 0u8]);
}

} // verus!
