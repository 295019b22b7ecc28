use crate::attr::Attr;
use crate::context::Context;
use crate::decoder::{DecoderBox, ExecType, Status, WorkerBox};
use crate::error::Error;
use crate::frame::{Frame, FrameModel};
use crate::layer::{
    all_in_place, grew, in_place, models, uniform, Layer, LayerModel, LayerProxy, LayerStack,
    Payload,
};
use crate::profile::Profile;
use crate::tree::{first_child, is_child, is_forest, lemma_total_push, total};
use vstd::prelude::*;

verus! {

/// A decoder of a profile with the worker that runs it, where it has one.
pub struct Runner {
    ctx: Context,
    typ: ExecType,
    decoder: DecoderBox,
    worker: Option<WorkerBox>,
}

impl Runner {
    /// The runner has a worker: its decoder runs in the phase that the runner serves.
    pub closed spec fn has_worker(&self) -> bool {
        self.worker is Some
    }

    /// The phase that the runner serves.
    pub closed spec fn spec_typ(&self) -> ExecType {
        self.typ
    }

    /// Neither the worker of the runner nor any that it may get copies bytes.
    pub closed spec fn zero_copy(&self) -> bool {
        &&& self.decoder.zero_copy()
        &&& self.worker matches Some(w) ==> w.zero_copy()
    }

    /// The decoder of the runner.
    pub closed spec fn spec_decoder(&self) -> DecoderBox {
        self.decoder
    }

    /// The settings that the workers of the runner are given.
    pub closed spec fn spec_context(&self) -> Seq<(Seq<char>, Seq<char>)> {
        self.ctx@
    }

    /// The worker of the runner may, for the layer `target` under the stack `stack`, add
    /// `attrs`, `payloads` and `own` through the proxy and answer `a`. A runner without a
    /// worker skips every layer and adds nothing.
    pub closed spec fn step(
        &self,
        target: LayerModel,
        stack: Seq<LayerModel>,
        a: Result<Status, Error>,
        attrs: Seq<Attr>,
        payloads: Seq<Payload>,
        own: Seq<LayerModel>,
    ) -> bool {
        match self.worker {
            Some(w) => w.may_answer(target, stack, a) && w.may_add(
                target,
                stack,
                attrs,
                payloads,
                own,
            ),
            None => a matches Ok(Status::Skip) && attrs.len() == 0 && payloads.len() == 0
                && own.len() == 0,
        }
    }

    /// The children that the answer `a` hands on: those of a `Done`, as many as a call
    /// hands on, and none of any other answer.
    pub open spec fn handed(a: Result<Status, Error>) -> Seq<LayerModel> {
        match a {
            Ok(Status::Done(children)) => WorkerBox::kept(models(children@)),
            _ => Seq::<LayerModel>::empty(),
        }
    }

    /// The runner was run under the stack `stack` with the proxy `before`, which is
    /// `after`, and told `done`: its worker made a step that it may make for the layer of
    /// the proxy; only `Done` is a claim; and the children that the proxy has gained are
    /// those that the worker added, and behind them those that its answer hands on.
    pub open spec fn ran(
        &self,
        stack: Seq<LayerModel>,
        before: LayerProxy,
        after: LayerProxy,
        done: bool,
    ) -> bool {
        exists|a: Result<Status, Error>, own: Seq<LayerModel>| #[trigger]
            self.step(
                before.target(),
                stack,
                a,
                after.gained_attrs(before),
                after.gained_payloads(before),
                own,
            ) && done == (a matches Ok(Status::Done(_))) && after.gained_children(before) == own
                + Self::handed(a)
    }

    /// Whatever step the worker of the runner may make, the worker of `other` may make.
    pub open spec fn within(&self, other: Runner) -> bool {
        forall|
            t: LayerModel,
            s: Seq<LayerModel>,
            a: Result<Status, Error>,
            x: Seq<Attr>,
            y: Seq<Payload>,
            z: Seq<LayerModel>,
        | #[trigger]
            self.step(t, s, a, x, y, z) ==> other.step(t, s, a, x, y, z)
    }

    /// The worker of the runner is one of its decoder: whatever step it may make, the
    /// decoder says that its workers may answer and add so. A runner without a worker
    /// only skips, and adds nothing.
    pub open spec fn tied(&self) -> bool {
        forall|
            t: LayerModel,
            s: Seq<LayerModel>,
            a: Result<Status, Error>,
            x: Seq<Attr>,
            y: Seq<Payload>,
            z: Seq<LayerModel>,
        | #[trigger]
            self.step(t, s, a, x, y, z) ==> if self.has_worker() {
                self.spec_decoder().worker_may_answer(t, s, a)
                    && self.spec_decoder().worker_may_add(t, s, x, y, z)
            } else {
                a matches Ok(Status::Skip) && x.len() == 0 && y.len() == 0 && z.len() == 0
            }
    }

    /// The runner has a worker exactly where its decoder has declared the phase that the
    /// runner serves.
    pub open spec fn staffed(&self) -> bool {
        exists|t: ExecType| #[trigger]
            self.spec_decoder().may_declare(t) && self.has_worker() == (t == self.spec_typ())
    }

    /// A runner of `decoder` for the phase `typ`. It has a worker where the decoder says
    /// that it runs in that phase.
    pub fn new(typ: &ExecType, ctx: Context, decoder: DecoderBox) -> (r: Runner)
        ensures
            r.spec_typ() == *typ,
            r.spec_decoder() == decoder,
            r.spec_context() == ctx@,
            r.staffed(),
            r.tied(),
            decoder.zero_copy() ==> r.zero_copy(),
    {
        let mut runner = Runner { ctx, typ: *typ, decoder, worker: None };
        runner.reset();
        runner
    }

    /// Lets the worker decode the layer behind `layer`, and tells whether it claimed the
    /// layer, as `ran` says. Children that it answered are added to `layer` behind those
    /// it added itself. A worker that skips the layer or fails has not claimed it, and a
    /// runner without a worker claims nothing and leaves `layer` alone.
    pub fn execute(&mut self, stack: &LayerStack, layer: &mut LayerProxy) -> (done: bool)
        ensures
            old(self).ran(stack@, *old(layer), *final(layer), done),
            final(self).within(*old(self)),
            final(self).spec_typ() == old(self).spec_typ(),
            final(self).spec_decoder() == old(self).spec_decoder(),
            final(layer).extends(*old(layer)),
            final(self).has_worker() == old(self).has_worker(),
            !old(self).has_worker() ==> !done && *final(self) == *old(self) && *final(layer)
                == *old(layer),
            old(self).zero_copy() ==> final(self).zero_copy(),
            old(self).zero_copy() && old(layer).in_place() ==> final(layer).in_place(),
    {
        match &mut self.worker {
            Some(worker) => {
                let mut results: Vec<Layer> = Vec::new();
                let ghost empty = results;
                let outcome = worker.decode(&mut self.ctx, stack, layer, &mut results);
                let ghost held = old(self).worker->Some_0;
                let ghost a = choose|a: Result<Status, Error>| #[trigger]
                    held.may_answer(old(layer).target(), stack@, a) && WorkerBox::concluded(
                        a,
                        outcome,
                        empty,
                        results,
                    );
                let ghost between = *layer;
                let ghost kept = models(results@);
                let done = match outcome {
                    Ok(done) => {
                        if done {
                            layer.add_children(&mut results);
                        }
                        done
                    },
                    Err(_) => false,
                };
                proof {
                    let own = between.gained_children(*old(layer));
                    assert(layer.gained_children(*old(layer)) =~= own + Self::handed(a));
                    assert(old(self).step(
                        old(layer).target(),
                        stack@,
                        a,
                        layer.gained_attrs(*old(layer)),
                        layer.gained_payloads(*old(layer)),
                        own,
                    ));
                }
                done
            },
            None => {
                proof {
                    let a = Ok::<Status, Error>(Status::Skip);
                    let own = Seq::<LayerModel>::empty();
                    assert(layer.gained_children(*old(layer)) =~= own + Self::handed(a));
                    assert(old(self).step(
                        old(layer).target(),
                        stack@,
                        a,
                        layer.gained_attrs(*old(layer)),
                        layer.gained_payloads(*old(layer)),
                        own,
                    ));
                }
                false
            },
        }
    }

    /// Gives the runner a new worker of its decoder, or none where the decoder runs in
    /// another phase: afterwards the runner has a worker exactly where the decoder has
    /// declared the phase that the runner serves, and the worker is one of the decoder.
    /// The phase, the decoder and the settings stay.
    pub fn reset(&mut self)
        ensures
            final(self).spec_typ() == old(self).spec_typ(),
            final(self).spec_decoder() == old(self).spec_decoder(),
            final(self).spec_context() == old(self).spec_context(),
            final(self).staffed(),
            final(self).tied(),
            old(self).zero_copy() ==> final(self).zero_copy(),
    {
        let declared = self.decoder.execution_type();
        if declared == self.typ {
            self.worker = Some(self.decoder.new_worker(&self.ctx));
        } else {
            self.worker = None;
        }
        assert(self.spec_decoder().may_declare(declared) && self.has_worker() == (declared
            == self.spec_typ()));
    }
}

/// A runner that claims at most one layer of a frame: once its worker has claimed one,
/// it is not run again until the runner is armed for the next frame.
pub struct OnceRunner {
    runner: Runner,
    used: bool,
}

impl OnceRunner {
    /// The worker has claimed a layer since the runner was armed.
    pub closed spec fn used(&self) -> bool {
        self.used
    }

    /// The runner inside.
    pub closed spec fn inner(&self) -> Runner {
        self.runner
    }

    /// The worker of the runner copies no bytes.
    pub open spec fn zero_copy(&self) -> bool {
        self.inner().zero_copy()
    }

    pub fn new(runner: Runner) -> (r: OnceRunner)
        ensures
            !r.used(),
            r.inner() == runner,
    {
        OnceRunner { runner, used: false }
    }

    /// Makes the runner ready for a new frame.
    pub fn arm(&mut self)
        ensures
            !final(self).used(),
            final(self).inner() == old(self).inner(),
    {
        self.used = false;
    }

    /// Runs the runner on the layer behind `layer`, unless it has claimed a layer already,
    /// and tells whether it claimed this one. A used runner is not run: it and `layer`
    /// stay as they are. A runner that is not used is run as `Runner::execute` says, and
    /// is used from then on where it claims the layer.
    pub fn execute(&mut self, stack: &LayerStack, layer: &mut LayerProxy) -> (done: bool)
        ensures
            final(layer).extends(*old(layer)),
            old(self).used() ==> !done && *final(self) == *old(self) && *final(layer) == *old(
                layer,
            ),
            !old(self).used() ==> final(self).used() == done,
            !old(self).used() ==> old(self).inner().ran(
                stack@,
                *old(layer),
                *final(layer),
                done,
            ),
            final(self).inner().within(old(self).inner()),
            !old(self).inner().has_worker() ==> !done,
            final(self).inner().has_worker() == old(self).inner().has_worker(),
            final(self).inner().spec_typ() == old(self).inner().spec_typ(),
            final(self).inner().spec_decoder() == old(self).inner().spec_decoder(),
            old(self).zero_copy() ==> final(self).zero_copy(),
            old(self).zero_copy() && old(layer).in_place() ==> final(layer).in_place(),
    {
        if !self.used {
            let done = self.runner.execute(stack, layer);
            if done {
                self.used = true;
            }
            done
        } else {
            false
        }
    }
}

/// The number of runners that have not claimed a layer.
pub open spec fn unused(runners: Seq<OnceRunner>) -> nat
    decreases runners.len(),
{
    if runners.len() == 0 {
        0
    } else {
        unused(runners.drop_last()) + if runners.last().used() {
            0nat
        } else {
            1nat
        }
    }
}

/// There are no more unused runners than runners, and as many where none is used.
pub proof fn lemma_unused_bound(runners: Seq<OnceRunner>)
    ensures
        unused(runners) <= runners.len(),
        all_unused(runners) ==> unused(runners) == runners.len(),
    decreases runners.len(),
{
    if runners.len() > 0 {
        lemma_unused_bound(runners.drop_last());
        if all_unused(runners) {
            assert(!runners.last().used());
            assert forall|i: int| 0 <= i < runners.drop_last().len() implies !(
            #[trigger] runners.drop_last()[i]).used() by {
                assert(runners.drop_last()[i] == runners[i]);
            }
        }
    }
}

/// The count of unused runners changes with one runner as that runner changes.
pub proof fn lemma_unused_update(runners: Seq<OnceRunner>, i: int, r: OnceRunner)
    requires
        0 <= i < runners.len(),
    ensures
        unused(runners.update(i, r)) + (if runners[i].used() {
            0nat
        } else {
            1nat
        }) == unused(runners) + (if r.used() {
            0nat
        } else {
            1nat
        }),
    decreases runners.len(),
{
    if i == runners.len() - 1 {
        assert(runners.update(i, r).drop_last() =~= runners.drop_last());
    } else {
        assert(runners.update(i, r).drop_last() =~= runners.drop_last().update(i, r));
        lemma_unused_update(runners.drop_last(), i, r);
    }
}

/// One claim of a layer: the runner at the place `runner` saw the layer as `seen`, added
/// `attrs`, `payloads` and the children `own` through the proxy, and gave the answer
/// `answer`.
pub struct Claim {
    pub runner: int,
    pub seen: LayerModel,
    pub answer: Result<Status, Error>,
    pub attrs: Seq<Attr>,
    pub payloads: Seq<Payload>,
    pub own: Seq<LayerModel>,
}

impl Claim {
    /// The layer as the claim leaves it: what was added stands behind what it had.
    pub open spec fn left(&self) -> LayerModel {
        LayerModel {
            attrs: self.seen.attrs + self.attrs,
            payloads: self.seen.payloads + self.payloads,
            ..self.seen
        }
    }

    /// The children of the claim: those that the worker added, and behind them those
    /// that its answer hands on.
    pub open spec fn children(&self) -> Seq<LayerModel> {
        self.own + Runner::handed(self.answer)
    }
}

/// The most children that a layer gets. Children beyond these are dropped without an
/// error, so that a byte holds the number of the children of any layer.
pub const MAX_FANOUT: usize = 255;

/// The first `MAX_FANOUT` of `children`, or all of them where they are fewer.
pub open spec fn capped(children: Seq<LayerModel>) -> Seq<LayerModel> {
    if children.len() <= MAX_FANOUT {
        children
    } else {
        children.take(MAX_FANOUT as int)
    }
}

/// The children of the claims `trace`, in the order of the claims.
pub open spec fn offspring(trace: Seq<Claim>) -> Seq<LayerModel>
    decreases trace.len(),
{
    if trace.len() == 0 {
        Seq::<LayerModel>::empty()
    } else {
        offspring(trace.drop_last()) + trace.last().children()
    }
}

/// The layer `start` as the claims `trace` leave it.
pub open spec fn outcome(start: LayerModel, trace: Seq<Claim>) -> LayerModel {
    if trace.len() == 0 {
        start
    } else {
        trace.last().left()
    }
}

/// `trace` holds claims of the layer `start` under the stack `stack` by runners of
/// `runners`, in their order: each is made by a runner that was not used, and by none
/// twice; each runner saw the layer as the claim before it left it; and each claim is a
/// step that the runner's worker may make, with the answer `Done`.
pub open spec fn claimed(
    runners: Seq<OnceRunner>,
    stack: Seq<LayerModel>,
    start: LayerModel,
    trace: Seq<Claim>,
) -> bool {
    &&& forall|k: int|
        0 <= k < trace.len() ==> {
            let c = #[trigger] trace[k];
            &&& 0 <= c.runner < runners.len()
            &&& !runners[c.runner].used()
            &&& c.seen == outcome(start, trace.take(k))
            &&& c.answer matches Ok(Status::Done(_))
            &&& runners[c.runner].inner().step(c.seen, stack, c.answer, c.attrs, c.payloads, c.own)
        }
    &&& forall|i: int, k: int|
        0 <= i < k < trace.len() ==> (#[trigger] trace[i]).runner != (#[trigger] trace[k]).runner
}

/// One of the claims `trace` is made by the runner at the place `j`.
pub open spec fn claimant(trace: Seq<Claim>, j: int) -> bool {
    exists|k: int| 0 <= k < trace.len() && (#[trigger] trace[k]).runner == j
}

/// The runner `runner` makes no further claim on the layer `target` under the stack
/// `stack`: it is used by now, or its worker may make a step for the layer that is no
/// claim.
pub open spec fn rests(
    runner: OnceRunner,
    used: bool,
    target: LayerModel,
    stack: Seq<LayerModel>,
) -> bool {
    used || exists|
        a: Result<Status, Error>,
        x: Seq<Attr>,
        y: Seq<Payload>,
        z: Seq<LayerModel>,
    | #[trigger]
        runner.inner().step(target, stack, a, x, y, z) && !(a matches Ok(Status::Done(_)))
}

/// The runners `before` have decoded the layer `start` under the stack `stack` with the
/// claims `trace`, and are `after`: the layer is as the claims leave it; `children` are
/// the children of the claims, in their order, as many as a layer gets; the runners that
/// claimed are used, those that were used are as they were, and no other runner is used;
/// every runner rests on the layer as it is left; and whatever a worker may do
/// afterwards, it might have done before.
#[verifier::opaque]
pub open spec fn decoded(
    before: Seq<OnceRunner>,
    after: Seq<OnceRunner>,
    stack: Seq<LayerModel>,
    start: LayerModel,
    end: LayerModel,
    children: Seq<LayerModel>,
    trace: Seq<Claim>,
) -> bool {
    &&& after.len() == before.len()
    &&& claimed(before, stack, start, trace)
    &&& end == outcome(start, trace)
    &&& children == capped(offspring(trace))
    &&& forall|k: int| 0 <= k < trace.len() ==> after[(#[trigger] trace[k]).runner].used()
    &&& used_kept(before, after)
    &&& forall|j: int|
        0 <= j < before.len() && (#[trigger] after[j]).used() ==> before[j].used() || claimant(
            trace,
            j,
        )
    &&& forall|j: int|
        0 <= j < before.len() ==> rests(#[trigger] before[j], after[j].used(), end, stack)
    &&& forall|j: int|
        0 <= j < before.len() ==> (#[trigger] after[j]).inner().within(before[j].inner())
}

/// A claim more behind the claims `trace` of the layer `start`.
proof fn lemma_claimed_push(
    runners: Seq<OnceRunner>,
    stack: Seq<LayerModel>,
    start: LayerModel,
    trace: Seq<Claim>,
    c: Claim,
)
    requires
        claimed(runners, stack, start, trace),
        0 <= c.runner < runners.len(),
        !runners[c.runner].used(),
        c.seen == outcome(start, trace),
        c.answer matches Ok(Status::Done(_)),
        runners[c.runner].inner().step(c.seen, stack, c.answer, c.attrs, c.payloads, c.own),
        forall|i: int| 0 <= i < trace.len() ==> (#[trigger] trace[i]).runner != c.runner,
    ensures
        claimed(runners, stack, start, trace.push(c)),
        offspring(trace.push(c)) == offspring(trace) + c.children(),
        outcome(start, trace.push(c)) == c.left(),
{
    let more = trace.push(c);
    assert(more.drop_last() =~= trace);
    assert forall|k: int| 0 <= k < more.len() implies {
        let d = #[trigger] more[k];
        &&& 0 <= d.runner < runners.len()
        &&& !runners[d.runner].used()
        &&& d.seen == outcome(start, more.take(k))
        &&& d.answer matches Ok(Status::Done(_))
        &&& runners[d.runner].inner().step(d.seen, stack, d.answer, d.attrs, d.payloads, d.own)
    } by {
        assert(more.take(k) =~= trace.take(k));
        if k < trace.len() {
            assert(more[k] == trace[k]);
        } else {
            assert(trace.take(k) =~= trace);
        }
    }
}

/// No runner has claimed a layer.
pub open spec fn all_unused(runners: Seq<OnceRunner>) -> bool {
    forall|i: int| 0 <= i < runners.len() ==> !(#[trigger] runners[i]).used()
}

/// The runner `runner` is one for the phase `typ`, the settings `settings` and the
/// decoder `decoder`: it serves the phase with the settings; its decoder says of itself
/// what `decoder` says; it has a worker exactly where the decoder has declared the phase;
/// and the worker is one of the decoder.
pub open spec fn made_for(
    runner: Runner,
    typ: ExecType,
    settings: Seq<(Seq<char>, Seq<char>)>,
    decoder: DecoderBox,
) -> bool {
    &&& runner.spec_typ() == typ
    &&& runner.spec_context() == settings
    &&& runner.spec_decoder().same_as(decoder)
    &&& runner.staffed()
    &&& runner.tied()
}

/// The runners `after` are the runners `before`, made ready for a new frame: none is
/// used, and each is otherwise as it was.
pub open spec fn armed(before: Seq<OnceRunner>, after: Seq<OnceRunner>) -> bool {
    &&& after.len() == before.len()
    &&& forall|j: int|
        0 <= j < after.len() ==> !(#[trigger] after[j]).used() && after[j].inner()
            == before[j].inner()
}

/// No worker of `runners` copies bytes.
pub open spec fn all_zero_copy(runners: Seq<OnceRunner>) -> bool {
    forall|i: int| 0 <= i < runners.len() ==> (#[trigger] runners[i]).zero_copy()
}

/// Every runner that was used in `before` is in `after` as it was: it was not run.
pub open spec fn used_kept(before: Seq<OnceRunner>, after: Seq<OnceRunner>) -> bool {
    &&& after.len() == before.len()
    &&& forall|i: int|
        0 <= i < before.len() && (#[trigger] before[i]).used() ==> after[i] == before[i]
}

/// Holds the runners of one phase and dissects frames with them.
pub struct Dispatcher {
    runners: Vec<OnceRunner>,
}

impl Dispatcher {
    /// The runners, in the order of the decoders of the profile.
    pub closed spec fn spec_runners(&self) -> Seq<OnceRunner> {
        self.runners@
    }

    /// No worker of the dispatcher copies bytes.
    pub open spec fn zero_copy(&self) -> bool {
        all_zero_copy(self.spec_runners())
    }

    /// A dispatcher for the phase `typ` with a runner for each decoder of `profile`, in
    /// their order: each runner serves the phase `typ` with the settings of the profile
    /// and a decoder that says of itself what the decoder of the profile says, and has a
    /// worker of that decoder exactly where the decoder has declared the phase.
    pub fn new(typ: &ExecType, profile: &Profile) -> (d: Dispatcher)
        ensures
            d.spec_runners().len() == profile.decoder_count(),
            all_unused(d.spec_runners()),
            forall|j: int|
                0 <= j < d.spec_runners().len() ==> made_for(
                    (#[trigger] d.spec_runners()[j]).inner(),
                    *typ,
                    profile.settings(),
                    profile.spec_decoders()[j],
                ),
            profile.zero_copy() ==> d.zero_copy(),
    {
        let decoders = profile.decoders();
        let mut runners: Vec<OnceRunner> = Vec::new();
        let mut i: usize = 0;
        while i < decoders.len()
            invariant
                i <= decoders@.len(),
                decoders@ == profile.spec_decoders(),
                runners@.len() == i,
                forall|j: int| 0 <= j < i ==> !(#[trigger] runners@[j]).used(),
                forall|j: int|
                    0 <= j < i ==> made_for(
                        (#[trigger] runners@[j]).inner(),
                        *typ,
                        profile.settings(),
                        decoders@[j],
                    ),
                profile.zero_copy() ==> all_zero_copy(runners@),
            decreases decoders@.len() - i,
        {
            let runner = Runner::new(typ, profile.context(), decoders[i].clone());
            runners.push(OnceRunner::new(runner));
            i = i + 1;
        }
        Dispatcher { runners }
    }

    /// Makes every runner ready for a new frame: no runner is used, and each is otherwise
    /// as it was.
    pub fn arm(&mut self)
        ensures
            final(self).spec_runners().len() == old(self).spec_runners().len(),
            all_unused(final(self).spec_runners()),
            armed(old(self).spec_runners(), final(self).spec_runners()),
            old(self).zero_copy() ==> final(self).zero_copy(),
    {
        let mut i: usize = 0;
        while i < self.runners.len()
            invariant
                i <= self.runners@.len(),
                self.runners@.len() == old(self).runners@.len(),
                forall|j: int| 0 <= j < i ==> !(#[trigger] self.runners@[j]).used(),
                forall|j: int|
                    0 <= j < self.runners@.len() ==> (#[trigger] self.runners@[j]).inner() == old(
                        self,
                    ).runners@[j].inner(),
                all_zero_copy(old(self).runners@) ==> all_zero_copy(self.runners@),
            decreases self.runners@.len() - i,
        {
            self.runners[i].arm();
            i = i + 1;
        }
    }

    /// Runs the runners on `layer`, in their order, again and again until a whole round
    /// has claimed nothing. What a claiming worker added is added to the layer; the
    /// children of all claims are handed back in the order of the claims, as many as a
    /// layer gets, with the number of the claims. There are claims of which `decoded`
    /// holds.
    pub fn decode_layer(&mut self, stack: &LayerStack, layer: &mut Layer) -> (r: (Vec<Layer>, usize))
        ensures
            exists|trace: Seq<Claim>|
                trace.len() == r.1 && #[trigger] decoded(
                    old(self).spec_runners(),
                    final(self).spec_runners(),
                    stack@,
                    old(layer)@,
                    final(layer)@,
                    models(r.0@),
                    trace,
                ),
            r.0@.len() <= MAX_FANOUT,
            grew(final(layer)@, old(layer)@),
            final(self).spec_runners().len() == old(self).spec_runners().len(),
            unused(final(self).spec_runners()) + r.1 == unused(old(self).spec_runners()),
            r.0@.len() > 0 ==> r.1 > 0,
            used_kept(old(self).spec_runners(), final(self).spec_runners()),
            old(self).zero_copy() ==> final(self).zero_copy(),
            old(self).zero_copy() && in_place(old(layer)@, old(layer)@.data.buffer()) ==> in_place(
                final(layer)@,
                old(layer)@.data.buffer(),
            ) && all_in_place(models(r.0@), old(layer)@.data.buffer()),
    {
        let mut children: Vec<Layer> = Vec::new();
        let mut claims: usize = 0;
        let ghost buffer = layer@.data.buffer();
        let ghost clean = self.zero_copy() && in_place(layer@, buffer);
        let ghost start = layer@;
        let ghost first = self.runners@;
        let ghost mut claimed_so_far = Seq::<Claim>::empty();
        loop
            invariant
                start == old(layer)@,
                first == old(self).runners@,
                buffer == old(layer)@.data.buffer(),
                clean == (old(self).zero_copy() && in_place(old(layer)@, buffer)),
                clean ==> all_zero_copy(old(self).runners@),
                all_zero_copy(old(self).runners@) ==> all_zero_copy(self.runners@),
                clean ==> in_place(layer@, buffer) && all_in_place(models(children@), buffer),
                grew(layer@, old(layer)@),
                self.runners@.len() == old(self).runners@.len(),
                unused(self.runners@) + claims == unused(old(self).runners@),
                children@.len() > 0 ==> claims > 0,
                used_kept(old(self).runners@, self.runners@),
                claimed_so_far.len() == claims,
                claimed(first, stack@, start, claimed_so_far),
                layer@ == outcome(start, claimed_so_far),
                models(children@) == offspring(claimed_so_far),
                forall|k: int|
                    0 <= k < claimed_so_far.len() ==> self.runners@[(#[trigger] claimed_so_far[k]).runner].used(),
                forall|j: int|
                    0 <= j < first.len() && (#[trigger] self.runners@[j]).used() ==> first[j].used()
                        || claimant(claimed_so_far, j),
                forall|j: int|
                    0 <= j < first.len() ==> (#[trigger] self.runners@[j]).inner().within(
                        first[j].inner(),
                    ),
            ensures
                forall|j: int|
                    0 <= j < first.len() ==> rests(
                        #[trigger] first[j],
                        self.runners@[j].used(),
                        layer@,
                        stack@,
                    ),
            decreases unused(self.runners@),
        {
            let ghost round = self.runners@;
            let mut executed: usize = 0;
            let mut r: usize = 0;
            while r < self.runners.len()
                invariant
                    r <= self.runners@.len(),
                    executed <= r,
                    start == old(layer)@,
                    first == old(self).runners@,
                    grew(layer@, old(layer)@),
                    self.runners@.len() == old(self).runners@.len(),
                    round.len() == self.runners@.len(),
                    unused(round) + claims == unused(old(self).runners@),
                    unused(self.runners@) + executed == unused(round),
                    children@.len() > 0 ==> claims + executed > 0,
                    used_kept(old(self).runners@, self.runners@),
                    buffer == old(layer)@.data.buffer(),
                    all_zero_copy(old(self).runners@) ==> all_zero_copy(self.runners@),
                    clean ==> all_zero_copy(old(self).runners@),
                    clean ==> in_place(layer@, buffer) && all_in_place(models(children@), buffer),
                    claimed_so_far.len() == claims + executed,
                    claimed(first, stack@, start, claimed_so_far),
                    layer@ == outcome(start, claimed_so_far),
                    models(children@) == offspring(claimed_so_far),
                    forall|k: int|
                        0 <= k < claimed_so_far.len() ==> self.runners@[(#[trigger] claimed_so_far[k]).runner].used(),
                    forall|j: int|
                        0 <= j < first.len() && (#[trigger] self.runners@[j]).used()
                            ==> first[j].used() || claimant(claimed_so_far, j),
                    forall|j: int|
                        0 <= j < first.len() ==> (#[trigger] self.runners@[j]).inner().within(
                            first[j].inner(),
                        ),
                    executed == 0 ==> forall|j: int|
                        0 <= j < r ==> rests(
                            #[trigger] first[j],
                            self.runners@[j].used(),
                            layer@,
                            stack@,
                        ),
                decreases self.runners@.len() - r,
            {
                let ghost before = self.runners@;
                let ghost had = models(children@);
                let ghost was = layer@;
                let ghost so_far = claimed_so_far;
                let mut proxy = LayerProxy::from_mut_ref(layer);
                let ghost fresh = proxy;
                let done = self.runners[r].execute(stack, &mut proxy);
                let ghost asked = before[r as int];
                let ghost now = self.runners@[r as int];
                let ghost gained_attrs = proxy.gained_attrs(fresh);
                let ghost gained_payloads = proxy.gained_payloads(fresh);
                let ghost gained_children = proxy.gained_children(fresh);
                let (attrs, payloads, mut kids) = proxy.into_parts();
                proof {
                    assert(self.runners@ =~= before.update(r as int, now));
                    lemma_unused_update(before, r as int, now);
                    if all_zero_copy(before) {
                        assert(before[r as int].zero_copy());
                        assert forall|i: int| 0 <= i < self.runners@.len() implies (
                        #[trigger] self.runners@[i]).zero_copy() by {
                            if i != r {
                                assert(self.runners@[i] == before[i]);
                            }
                        }
                    }
                    assert(gained_attrs =~= attrs@);
                    assert(gained_payloads =~= payloads@);
                    assert(gained_children =~= models(kids@));
                    assert forall|j: int| 0 <= j < first.len() implies (
                    #[trigger] self.runners@[j]).inner().within(first[j].inner()) by {
                        if j != r {
                            assert(self.runners@[j] == before[j]);
                        } else {
                            assert(before[j].inner().within(first[j].inner()));
                        }
                    }
                    assert(asked.inner().within(first[r as int].inner()));
                    if asked.used() {
                        assert(now.used());
                    } else {
                        let (a, own) = choose|a: Result<Status, Error>, own: Seq<LayerModel>|
                            #[trigger] asked.inner().step(
                                fresh.target(),
                                stack@,
                                a,
                                gained_attrs,
                                gained_payloads,
                                own,
                            ) && done == (a matches Ok(Status::Done(_))) && gained_children == own
                                + Runner::handed(a);
                        assert(first[r as int].inner().step(
                            was,
                            stack@,
                            a,
                            gained_attrs,
                            gained_payloads,
                            own,
                        ));
                        if done {
                            let c = Claim {
                                runner: r as int,
                                seen: was,
                                answer: a,
                                attrs: gained_attrs,
                                payloads: gained_payloads,
                                own,
                            };
                            assert(!first[r as int].used());
                            assert forall|i: int| 0 <= i < so_far.len() implies (
                            #[trigger] so_far[i]).runner != c.runner by {
                                assert(before[so_far[i].runner].used());
                            }
                            lemma_claimed_push(first, stack@, start, so_far, c);
                            claimed_so_far = so_far.push(c);
                            assert forall|k: int| 0 <= k < claimed_so_far.len() implies self.runners@[(
                            #[trigger] claimed_so_far[k]).runner].used() by {
                                if k < so_far.len() {
                                    assert(claimed_so_far[k] == so_far[k]);
                                    assert(before[so_far[k].runner].used());
                                }
                            }
                        } else {
                            assert(rests(first[r as int], now.used(), was, stack@));
                        }
                    }
                    if executed == 0 && !done {
                        assert forall|j: int| 0 <= j < r + 1 implies rests(
                            #[trigger] first[j],
                            self.runners@[j].used(),
                            was,
                            stack@,
                        ) by {
                            if j < r {
                                assert(self.runners@[j] == before[j]);
                            }
                        }
                    }
                    if !done {
                        assert forall|k: int| 0 <= k < claimed_so_far.len() implies self.runners@[(
                        #[trigger] claimed_so_far[k]).runner].used() by {
                            assert(before[claimed_so_far[k].runner].used());
                        }
                    }
                    assert forall|j: int|
                        0 <= j < first.len() && (#[trigger] self.runners@[j]).used() implies first[j].used()
                        || claimant(claimed_so_far, j) by {
                        if j != r {
                            assert(self.runners@[j] == before[j]);
                        }
                        if j != r || asked.used() {
                            if !first[j].used() {
                                assert(before[j].used());
                                let k = choose|k: int|
                                    0 <= k < so_far.len() && (#[trigger] so_far[k]).runner == j;
                                assert(claimed_so_far[k] == so_far[k]);
                            }
                        } else {
                            assert(done);
                            assert(claimed_so_far[so_far.len() as int].runner == j);
                        }
                    }
                }
                let ghost more = models(kids@);
                if done {
                    executed = executed + 1;
                    layer.extend(attrs, payloads);
                    children.append(&mut kids);
                    proof {
                        assert(models(children@) =~= had + more);
                        if clean {
                            assert forall|i: int| 0 <= i < layer@.payloads.len() implies (
                            #[trigger] layer@.payloads[i]).data.wf() && layer@.payloads[i].data.buffer()
                                == buffer by {
                                if i < was.payloads.len() {
                                    assert(layer@.payloads[i] == was.payloads[i]);
                                } else {
                                    assert(layer@.payloads[i] == payloads@[i - was.payloads.len()]);
                                }
                            }
                            assert forall|i: int| 0 <= i < (had + more).len() implies in_place(
                                #[trigger] (had + more)[i],
                                buffer,
                            ) by {
                                if i < had.len() {
                                    assert((had + more)[i] == had[i]);
                                } else {
                                    assert((had + more)[i] == more[i - had.len()]);
                                }
                            }
                        }
                    }
                }
                r = r + 1;
            }
            if executed == 0 {
                break ;
            }
            proof {
                lemma_unused_bound(old(self).runners@);
            }
            claims = claims + executed;
        }
        let ghost all = models(children@);
        children.truncate(MAX_FANOUT);
        proof {
            reveal(decoded);
            assert(models(children@) =~= capped(all));
            if clean {
                assert forall|i: int| 0 <= i < models(children@).len() implies in_place(
                    #[trigger] models(children@)[i],
                    buffer,
                ) by {
                    assert(models(children@)[i] == all[i]);
                }
            }
            assert(decoded(
                old(self).spec_runners(),
                self.spec_runners(),
                stack@,
                old(layer)@,
                layer@,
                models(children@),
                claimed_so_far,
            ) && claimed_so_far.len() == claims);
        }
        let out = (children, claims);
        assert(models(out.0@) == capped(all));
        assert(exists|t: Seq<Claim>|
            t.len() == out.1 && #[trigger] decoded(
                old(self).spec_runners(),
                self.spec_runners(),
                stack@,
                old(layer)@,
                layer@,
                models(out.0@),
                t,
            ));
        out
    }
}

/// The places of the layers on the way from a root down to the layer at `start`, root
/// first, where `parents` holds for each layer the place of its parent.
pub open spec fn path(parents: Seq<Option<usize>>, start: Option<usize>) -> Seq<int>
    decreases
        (match start {
            Some(p) => p + 1,
            None => 0,
        }),
{
    match start {
        None => Seq::<int>::empty(),
        Some(p) => {
            if p < parents.len() && (parents[p as int] matches Some(q) ==> q < p) {
                path(parents, parents[p as int]).push(p as int)
            } else {
                seq![p as int]
            }
        },
    }
}

/// The layers of `layers` at the places of `places`, in their order.
pub open spec fn on_path(layers: Seq<LayerModel>, places: Seq<int>) -> Seq<LayerModel> {
    Seq::new(places.len(), |k: int| layers[places[k]])
}

/// Every parent stands before its child.
pub open spec fn ordered(parents: Seq<Option<usize>>) -> bool {
    forall|j: int| 0 <= j < parents.len() ==> ((#[trigger] parents[j]) matches Some(q) ==> q < j)
}

/// `up`, read from its end.
spec fn backwards(up: Seq<usize>) -> Seq<int> {
    Seq::new(up.len(), |k: int| up[up.len() - 1 - k] as int)
}

/// The stack for a layer whose parent stands at `start`: the layers of `done` on the way
/// from a root down to that parent.
fn build_stack<'a>(done: &'a Vec<Layer>, parents: &Vec<Option<usize>>, start: Option<usize>) -> (s:
    LayerStack<'a>)
    requires
        start matches Some(p) ==> p < done@.len(),
        done@.len() <= parents@.len(),
        ordered(parents@),
    ensures
        s@ == on_path(models(done@), path(parents@, start)),
{
    let mut up: Vec<usize> = Vec::new();
    let mut cur = start;
    assert(path(parents@, cur) + backwards(up@) =~= path(parents@, start));
    loop
        invariant
            cur matches Some(p) ==> p < done@.len(),
            done@.len() <= parents@.len(),
            ordered(parents@),
            path(parents@, start) == path(parents@, cur) + backwards(up@),
            forall|k: int| 0 <= k < up@.len() ==> up@[k] < done@.len(),
        ensures
            cur is None,
        decreases
            (match cur {
                Some(p) => p + 1,
                None => 0,
            }),
    {
        match cur {
            None => {
                break ;
            },
            Some(p) => {
                let ghost before = up@;
                up.push(p);
                cur = parents[p];
                proof {
                    assert(parents@[p as int] matches Some(q) ==> q < p);
                    assert(backwards(up@) =~= seq![p as int] + backwards(before));
                    assert(path(parents@, cur).push(p as int) + backwards(before) =~= path(
                        parents@,
                        cur,
                    ) + backwards(up@));
                }
            },
        }
    }
    assert(path(parents@, start) =~= backwards(up@));
    let n = up.len();
    let mut buffer: Vec<&'a Layer> = Vec::new();
    let mut i: usize = n;
    while i > 0
        invariant
            i <= n,
            n == up@.len(),
            buffer@.len() == n - i,
            forall|k: int| 0 <= k < up@.len() ==> up@[k] < done@.len(),
            forall|k: int| 0 <= k < buffer@.len() ==> *buffer@[k] == done@[up@[n - 1 - k] as int],
        decreases i,
    {
        i = i - 1;
        buffer.push(&done[up[i]]);
    }
    let s = LayerStack::new(buffer);
    assert(s@ =~= on_path(models(done@), path(parents@, start)));
    s
}

/// What a dissection has made of the layers it was given: all layers level by level, the
/// layers given first; for each layer the number of its children and the place of its
/// parent; and the number of times that a worker claimed a layer.
pub struct Expansion {
    layers: Vec<Layer>,
    fanout: Vec<usize>,
    parents: Vec<Option<usize>>,
    claims: usize,
    born: Ghost<Seq<LayerModel>>,
    traces: Ghost<Seq<Seq<Claim>>>,
    states: Ghost<Seq<Seq<OnceRunner>>>,
}

impl Expansion {
    pub closed spec fn spec_layers(&self) -> Seq<LayerModel> {
        models(self.layers@)
    }

    pub closed spec fn spec_fanout(&self) -> Seq<usize> {
        self.fanout@
    }

    pub closed spec fn spec_parents(&self) -> Seq<Option<usize>> {
        self.parents@
    }

    pub closed spec fn spec_claims(&self) -> usize {
        self.claims
    }

    /// Each layer as it was made, before it was decoded.
    pub closed spec fn spec_born(&self) -> Seq<LayerModel> {
        self.born@
    }

    /// For each layer the claims that were made of it, in their order.
    pub closed spec fn spec_traces(&self) -> Seq<Seq<Claim>> {
        self.traces@
    }

    /// The runners as they were before each layer was decoded, and at the end as they
    /// were left.
    pub closed spec fn spec_states(&self) -> Seq<Seq<OnceRunner>> {
        self.states@
    }

    /// The stack under which layer `i` was decoded: the layers on the way from a root
    /// down to its parent.
    pub open spec fn stack_of(&self, i: int) -> Seq<LayerModel> {
        on_path(self.spec_layers(), path(self.spec_parents(), self.spec_parents()[i]))
    }

    /// The expansion is what the runners `before` make of the layers `roots`, and leaves
    /// them as `after`. The runners are made ready first. Then each layer is decoded in
    /// its turn, as `decoded` says, by the runners as the layers before it left them: it
    /// was made as a root or as a child, it is decoded under the stack of the layers
    /// above it, its children are the children of its claims, and no layer has more than
    /// `MAX_FANOUT` of them.
    pub open spec fn traced(
        &self,
        before: Seq<OnceRunner>,
        after: Seq<OnceRunner>,
        roots: Seq<LayerModel>,
    ) -> bool {
        let n = self.spec_layers().len() as int;
        &&& self.spec_born().len() == n
        &&& self.spec_traces().len() == n
        &&& self.spec_states().len() == n + 1
        &&& self.spec_fanout().len() == n
        &&& roots.len() <= n
        &&& forall|i: int| 0 <= i < roots.len() ==> #[trigger] self.spec_born()[i] == roots[i]
        &&& armed(before, self.spec_states()[0])
        &&& self.spec_states()[n] == after
        &&& forall|i: int|
            0 <= i < n ==> visited(
                roots.len(),
                self.spec_states(),
                self.stack_of(i),
                self.spec_born(),
                self.spec_layers(),
                self.spec_fanout(),
                self.spec_traces(),
                i,
            )
    }

    /// The expansion is one of `roots` layers: every layer has its number of children and
    /// its parent; the layers are the roots and all the children; and the parent that was
    /// noted when a child was made is the parent that the numbers of children give.
    pub open spec fn wf(&self, roots: nat) -> bool {
        &&& self.spec_fanout().len() == self.spec_layers().len()
        &&& self.spec_parents().len() == self.spec_layers().len()
        &&& is_forest(roots, self.spec_fanout())
        &&& forall|j: int| 0 <= j < roots ==> (#[trigger] self.spec_parents()[j]) is None
        &&& forall|j: int|
            roots <= j < self.spec_layers().len() ==> (#[trigger] self.spec_parents()[j]) == Some(
                crate::tree::parent_of(roots, self.spec_fanout(), j) as usize,
            )
    }

    /// The layers, level by level.
    pub fn layers(&self) -> (r: &[Layer])
        ensures
            models(r@) == self.spec_layers(),
    {
        self.layers.as_slice()
    }

    /// For each layer the number of its children.
    pub fn fanout(&self) -> (r: &[usize])
        ensures
            r@ == self.spec_fanout(),
    {
        self.fanout.as_slice()
    }

    /// For each layer the place of the layer that it is a child of.
    pub fn parents(&self) -> (r: &[Option<usize>])
        ensures
            r@ == self.spec_parents(),
    {
        self.parents.as_slice()
    }

    /// The number of times that a worker claimed a layer.
    #[verifier::when_used_as_spec(spec_claims)]
    pub fn claims(&self) -> (n: usize)
        ensures
            n == self.spec_claims(),
    {
        self.claims
    }

    /// Gives up the expansion for its layers and their numbers of children.
    pub fn into_parts(self) -> (r: (Vec<Layer>, Vec<usize>))
        ensures
            models(r.0@) == self.spec_layers(),
            r.1@ == self.spec_fanout(),
    {
        (self.layers, self.fanout)
    }
}

/// Layer `i` was decoded under the stack `stack`, as `decoded` says: by the runners
/// `states[i]`, which it left as `states[i + 1]`; from what it was when it was made to what
/// it is in `layers`; with the claims `traces[i]`; and its children, as they were made,
/// are the children of the claims. It has no more than `MAX_FANOUT` children.
pub open spec fn visited(
    roots: nat,
    states: Seq<Seq<OnceRunner>>,
    stack: Seq<LayerModel>,
    born: Seq<LayerModel>,
    layers: Seq<LayerModel>,
    fanout: Seq<usize>,
    traces: Seq<Seq<Claim>>,
    i: int,
) -> bool {
    let first = first_child(roots, fanout, i) as int;
    &&& fanout[i] <= MAX_FANOUT
    &&& first + fanout[i] <= born.len()
    &&& decoded(
        states[i],
        states[i + 1],
        stack,
        born[i],
        layers[i],
        born.subrange(first, first + fanout[i]),
        traces[i],
    )
}

/// Every place on the way down to a layer is the place of that layer or lies before it.
proof fn lemma_path_bound(parents: Seq<Option<usize>>, start: Option<usize>)
    ensures
        forall|k: int|
            0 <= k < path(parents, start).len() ==> 0 <= #[trigger] path(parents, start)[k] && (
            start matches Some(p) && path(parents, start)[k] <= p),
    decreases
        (match start {
            Some(p) => p + 1,
            None => 0,
        }),
{
    match start {
        None => {
            assert(path(parents, start).len() == 0);
        },
        Some(p) => {
            if p < parents.len() && (parents[p as int] matches Some(q) ==> q < p) {
                lemma_path_bound(parents, parents[p as int]);
                let up = path(parents, parents[p as int]);
                assert(path(parents, start) == up.push(p as int));
                assert forall|k: int| 0 <= k < path(parents, start).len() implies 0
                    <= #[trigger] path(parents, start)[k] <= p by {
                    if k < up.len() {
                        assert(path(parents, start)[k] == up[k]);
                    }
                }
            } else {
                assert(path(parents, start) == seq![p as int]);
            }
        },
    }
}

/// The way down to a layer is the same where more parents are noted behind those that
/// were.
proof fn lemma_path_prefix(small: Seq<Option<usize>>, big: Seq<Option<usize>>, start: Option<usize>)
    requires
        small.is_prefix_of(big),
        start matches Some(p) ==> p < small.len(),
    ensures
        path(big, start) == path(small, start),
    decreases
        (match start {
            Some(p) => p + 1,
            None => 0,
        }),
{
    match start {
        None => {},
        Some(p) => {
            assert(small[p as int] == big[p as int]);
            if p < small.len() && (small[p as int] matches Some(q) ==> q < p) {
                lemma_path_prefix(small, big, small[p as int]);
            }
        },
    }
}

/// The stack of a layer whose parent, if it has one, stands before `d` is the same where
/// more layers stand behind the first `d` and more parents are noted.
proof fn lemma_stack_kept(
    small: Seq<LayerModel>,
    big: Seq<LayerModel>,
    noted: Seq<Option<usize>>,
    parents: Seq<Option<usize>>,
    start: Option<usize>,
)
    requires
        small.is_prefix_of(big),
        noted.is_prefix_of(parents),
        small.len() <= noted.len(),
        start matches Some(p) ==> p < small.len(),
    ensures
        on_path(big, path(parents, start)) == on_path(small, path(noted, start)),
{
    lemma_path_prefix(noted, parents, start);
    lemma_path_bound(noted, start);
    let places = path(noted, start);
    assert forall|k: int| 0 <= k < places.len() implies big[places[k]] == small[places[k]] by {}
    assert(on_path(big, places) =~= on_path(small, places));
}

/// One layer more is decoded: what was known of the layers before it holds as it did,
/// and the layer itself is decoded as `decoded` says.
proof fn lemma_visit(
    roots: nat,
    states: Seq<Seq<OnceRunner>>,
    stacks: Seq<Seq<LayerModel>>,
    born: Seq<LayerModel>,
    layers: Seq<LayerModel>,
    fanout: Seq<usize>,
    traces: Seq<Seq<Claim>>,
    left: Seq<OnceRunner>,
    stack: Seq<LayerModel>,
    kids: Seq<LayerModel>,
    after: Seq<LayerModel>,
    trace: Seq<Claim>,
)
    requires
        states.len() == fanout.len() + 1,
        stacks.len() == fanout.len(),
        traces.len() == fanout.len(),
        fanout.len() < layers.len(),
        after.len() == layers.len(),
        forall|i: int| 0 <= i < fanout.len() ==> #[trigger] after[i] == layers[i],
        roots + total(fanout) == born.len(),
        fanout.len() < born.len(),
        kids.len() <= MAX_FANOUT,
        forall|i: int|
            0 <= i < fanout.len() ==> visited(
                roots,
                states,
                #[trigger] stacks[i],
                born,
                layers,
                fanout,
                traces,
                i,
            ),
        decoded(
            states[fanout.len() as int],
            left,
            stack,
            born[fanout.len() as int],
            after[fanout.len() as int],
            kids,
            trace,
        ),
    ensures
        forall|i: int|
            0 <= i <= fanout.len() ==> visited(
                roots,
                states.push(left),
                #[trigger] stacks.push(stack)[i],
                born + kids,
                after,
                fanout.push(kids.len() as usize),
                traces.push(trace),
                i,
            ),
{
    let index = fanout.len() as int;
    let more = fanout.push(kids.len() as usize);
    let all = born + kids;
    assert forall|i: int| 0 <= i <= index implies visited(
        roots,
        states.push(left),
        #[trigger] stacks.push(stack)[i],
        all,
        after,
        more,
        traces.push(trace),
        i,
    ) by {
        assert(more.take(i) =~= fanout.take(i));
        let first = first_child(roots, more, i) as int;
        if i < index {
            assert(visited(roots, states, stacks[i], born, layers, fanout, traces, i));
            assert(all.subrange(first, first + more[i]) =~= born.subrange(
                first,
                first + fanout[i],
            ));
        } else {
            assert(fanout.take(index) =~= fanout);
            assert(all.subrange(first, first + more[i]) =~= kids);
        }
    }
}

/// What is known of the layers while they are dissected: `fanout` holds the numbers of
/// children of the layers that are done with, `parents` the parent of every layer made so
/// far.
spec fn linked(roots: nat, fanout: Seq<usize>, parents: Seq<Option<usize>>) -> bool {
    &&& forall|i: int| 0 <= i < fanout.len() ==> #[trigger] first_child(roots, fanout, i) > i
    &&& forall|j: int| 0 <= j < roots && j < parents.len() ==> (#[trigger] parents[j]) is None
    &&& forall|j: int|
        roots <= j < parents.len() ==> (#[trigger] parents[j]) is Some && is_child(
            roots,
            fanout,
            parents[j]->Some_0 as int,
            j,
        )
}

/// Noting `m` children for the next layer keeps what was known and adds the children.
proof fn lemma_linked_push(
    roots: nat,
    fanout: Seq<usize>,
    parents: Seq<Option<usize>>,
    more: Seq<Option<usize>>,
    m: usize,
    index: usize,
)
    requires
        linked(roots, fanout, parents),
        roots + total(fanout) == parents.len(),
        index == fanout.len(),
        index < parents.len(),
        more.len() == m,
        forall|k: int| 0 <= k < m ==> (#[trigger] more[k]) == Some(index),
        roots <= parents.len(),
    ensures
        linked(roots, fanout.push(m), parents + more),
        roots + total(fanout.push(m)) == (parents + more).len(),
{
    let after = fanout.push(m);
    let all = parents + more;
    lemma_total_push(fanout, m);
    assert forall|i: int| 0 <= i <= fanout.len() implies first_child(roots, after, i)
        == first_child(roots, fanout, i) by {
        assert(after.take(i) =~= fanout.take(i));
    }
    assert(fanout.take(fanout.len() as int) =~= fanout);
    assert forall|i: int| 0 <= i < after.len() implies #[trigger] first_child(roots, after, i)
        > i by {
        if i < fanout.len() {
            assert(first_child(roots, fanout, i) > i);
        }
    }
    assert forall|j: int| roots <= j < all.len() implies (#[trigger] all[j]) is Some && is_child(
        roots,
        after,
        all[j]->Some_0 as int,
        j,
    ) by {
        if j < parents.len() {
            let q = parents[j]->Some_0 as int;
            assert(is_child(roots, fanout, q, j));
            assert(after[q] == fanout[q]);
            assert(after.take(q) =~= fanout.take(q));
        } else {
            assert(all[j] == more[j - parents.len()]);
            assert(after.take(index as int) =~= fanout);
            assert(after[index as int] == m);
        }
    }
}

impl Dispatcher {
    /// Dissects the layers `roots`, level by level. Each layer of a level is decoded in
    /// turn as `decode_layer` says, with the stack of the layers above it; the children
    /// of the level are the next level; the dissection ends with a level that has no
    /// children. Every runner claims at most one layer.
    pub fn expand(&mut self, roots: Vec<Layer>) -> (e: Expansion)
        ensures
            e.wf(roots@.len() as nat),
            e.traced(old(self).spec_runners(), final(self).spec_runners(), models(roots@)),
            roots@.len() <= e.spec_layers().len(),
            forall|i: int|
                0 <= i < roots@.len() ==> grew(
                    #[trigger] e.spec_layers()[i],
                    models(roots@)[i],
                ),
            final(self).spec_runners().len() == old(self).spec_runners().len(),
            e.spec_claims() + unused(final(self).spec_runners()) == final(self).spec_runners().len(),
            old(self).zero_copy() ==> final(self).zero_copy(),
            old(self).zero_copy() && uniform(models(roots@)) ==> uniform(e.spec_layers()),
    {
        self.arm();
        proof {
            lemma_unused_bound(self.runners@);
        }
        let ghost armed_runners = self.runners@;
        let ghost mut born = models(roots@);
        let ghost mut traces = Seq::<Seq<Claim>>::empty();
        let ghost mut stacks = Seq::<Seq<LayerModel>>::empty();
        let ghost mut states = seq![self.runners@];
        let runners = self.runners.len();
        let ghost given = models(roots@);
        let ghost n_roots = roots@.len();
        let ghost buffer = if roots@.len() > 0 {
            roots@[0]@.data.buffer()
        } else {
            Seq::<u8>::empty()
        };
        let ghost clean = old(self).zero_copy() && uniform(given);
        let mut done: Vec<Layer> = Vec::new();
        let mut fanout: Vec<usize> = Vec::new();
        let mut parents: Vec<Option<usize>> = Vec::new();
        let mut claims: usize = 0;
        let mut frontier: Vec<Layer> = roots;
        let mut i: usize = 0;
        while i < frontier.len()
            invariant
                i <= frontier@.len(),
                parents@.len() == i,
                forall|j: int| 0 <= j < i ==> (#[trigger] parents@[j]) is None,
            decreases frontier@.len() - i,
        {
            parents.push(None);
            i = i + 1;
        }
        assert(total(fanout@) == 0);
        assert(models(done@) + models(frontier@) =~= given);
        assert(models(frontier@) =~= given);
        while frontier.len() > 0
            invariant
                armed(old(self).runners@, armed_runners),
                states.len() == done@.len() + 1,
                states[0] == armed_runners,
                states[done@.len() as int] == self.runners@,
                stacks.len() == done@.len(),
                traces.len() == done@.len(),
                born.len() == parents@.len(),
                forall|i: int| 0 <= i < n_roots ==> #[trigger] born[i] == given[i],
                forall|q: int|
                    0 <= q < frontier@.len() ==> #[trigger] born[done@.len() + q] == models(
                        frontier@,
                    )[q],
                forall|i: int|
                    0 <= i < done@.len() ==> visited(
                        n_roots as nat,
                        states,
                        #[trigger] stacks[i],
                        born,
                        models(done@) + models(frontier@),
                        fanout@,
                        traces,
                        i,
                    ),
                forall|i: int|
                    0 <= i < done@.len() ==> #[trigger] stacks[i] == on_path(
                        models(done@),
                        path(parents@, parents@[i]),
                    ),
                all_zero_copy(old(self).runners@) ==> all_zero_copy(self.runners@),
                clean ==> all_zero_copy(old(self).runners@),
                clean ==> all_in_place(models(done@), buffer) && all_in_place(
                    models(frontier@),
                    buffer,
                ),
                self.runners@.len() == old(self).runners@.len(),
                self.runners@.len() == runners,
                claims + unused(self.runners@) == self.runners@.len(),
                n_roots == given.len(),
                fanout@.len() == done@.len(),
                parents@.len() == done@.len() + frontier@.len(),
                n_roots + total(fanout@) == parents@.len(),
                n_roots <= parents@.len(),
                linked(n_roots as nat, fanout@, parents@),
                ordered(parents@),
                forall|j: int|
                    0 <= j < parents@.len() ==> ((#[trigger] parents@[j]) matches Some(q) ==> q
                        < done@.len()),
                forall|j: int|
                    0 <= j < n_roots ==> grew(
                        #[trigger] (models(done@) + models(frontier@))[j],
                        given[j],
                    ),
            decreases
                unused(self.runners@) + (if frontier@.len() > 0 {
                    1nat
                } else {
                    0nat
                }),
        {
            let ghost level_unused = unused(self.runners@);
            let ghost d = done@.len();
            let mut next: Vec<Layer> = Vec::new();
            let mut k: usize = 0;
            while k < frontier.len()
                invariant
                    k <= frontier@.len(),
                    d == done@.len(),
                    armed(old(self).runners@, armed_runners),
                    states.len() == d + k + 1,
                    states[0] == armed_runners,
                    states[d + k] == self.runners@,
                    stacks.len() == d + k,
                    traces.len() == d + k,
                    born.len() == parents@.len(),
                    forall|i: int| 0 <= i < n_roots ==> #[trigger] born[i] == given[i],
                    forall|q: int|
                        k <= q < frontier@.len() ==> #[trigger] born[d + q] == models(frontier@)[q],
                    forall|q: int|
                        0 <= q < next@.len() ==> #[trigger] born[d + frontier@.len() + q]
                            == models(next@)[q],
                    forall|i: int|
                        0 <= i < d + k ==> visited(
                            n_roots as nat,
                            states,
                            #[trigger] stacks[i],
                            born,
                            models(done@) + models(frontier@),
                            fanout@,
                            traces,
                            i,
                        ),
                    forall|i: int|
                        0 <= i < d + k ==> #[trigger] stacks[i] == on_path(
                            models(done@),
                            path(parents@, parents@[i]),
                        ),
                    all_zero_copy(old(self).runners@) ==> all_zero_copy(self.runners@),
                    clean ==> all_zero_copy(old(self).runners@),
                    clean ==> all_in_place(models(done@), buffer) && all_in_place(
                        models(frontier@),
                        buffer,
                    ) && all_in_place(models(next@), buffer),
                    self.runners@.len() == old(self).runners@.len(),
                    self.runners@.len() == runners,
                    claims + unused(self.runners@) == self.runners@.len(),
                    unused(self.runners@) <= level_unused,
                    next@.len() > 0 ==> unused(self.runners@) < level_unused,
                    n_roots == given.len(),
                    fanout@.len() == d + k,
                    parents@.len() == d + frontier@.len() + next@.len(),
                    n_roots + total(fanout@) == parents@.len(),
                    n_roots <= d + frontier@.len(),
                    linked(n_roots as nat, fanout@, parents@),
                    ordered(parents@),
                    forall|j: int|
                        0 <= j < d + frontier@.len() ==> ((#[trigger] parents@[j]) matches Some(q)
                            ==> q < d),
                    forall|j: int|
                        d + frontier@.len() <= j < parents@.len() ==> ((
                        #[trigger] parents@[j]) matches Some(q) ==> q < d + k),
                    forall|j: int|
                        0 <= j < n_roots ==> grew(
                            #[trigger] (models(done@) + models(frontier@))[j],
                            given[j],
                        ),
                decreases frontier@.len() - k,
            {
                let index = fanout.len();
                let ghost level = models(frontier@);
                let ghost coming = models(next@);
                proof {
                    if clean {
                        assert(in_place(level[k as int], buffer));
                    }
                }
                let stack = build_stack(&done, &parents, parents[index]);
                let ghost asked = self.runners@;
                let (mut kids, claimed) = self.decode_layer(&stack, &mut frontier[k]);
                let m = kids.len();
                let ghost more = models(kids@);
                let ghost trace = choose|t: Seq<Claim>|
                    t.len() == claimed && #[trigger] decoded(
                        asked,
                        self.spec_runners(),
                        stack@,
                        level[k as int],
                        frontier@[k as int]@,
                        more,
                        t,
                    );
                proof {
                    lemma_unused_bound(self.runners@);
                    assert(models(frontier@) =~= level.update(k as int, frontier@[k as int]@));
                    let layers = models(done@) + level;
                    let after = models(done@) + models(frontier@);
                    assert(born[d + k] == level[k as int]);
                    assert(after[d + k] == frontier@[k as int]@);
                    assert forall|i: int| 0 <= i < d + k implies #[trigger] after[i]
                        == layers[i] by {
                        if i >= d {
                            assert(models(frontier@)[i - d] == level[i - d]);
                        }
                    }
                    lemma_visit(
                        n_roots as nat,
                        states,
                        stacks,
                        born,
                        layers,
                        fanout@,
                        traces,
                        self.runners@,
                        stack@,
                        more,
                        after,
                        trace,
                    );
                    if clean {
                        assert forall|i: int| 0 <= i < frontier@.len() implies in_place(
                            #[trigger] models(frontier@)[i],
                            buffer,
                        ) by {
                            if i != k {
                                assert(models(frontier@)[i] == level[i]);
                            }
                        }
                        assert forall|i: int| 0 <= i < (coming + more).len() implies in_place(
                            #[trigger] (coming + more)[i],
                            buffer,
                        ) by {
                            if i < coming.len() {
                                assert((coming + more)[i] == coming[i]);
                            } else {
                                assert((coming + more)[i] == more[i - coming.len()]);
                            }
                        }
                    }
                    assert forall|j: int| 0 <= j < n_roots implies grew(
                        #[trigger] (models(done@) + models(frontier@))[j],
                        given[j],
                    ) by {
                        assert(grew((models(done@) + level)[j], given[j]));
                    }
                }
                let ghost noted = parents@;
                let mut c: usize = 0;
                while c < m
                    invariant
                        c <= m,
                        parents@.len() == noted.len() + c,
                        parents@.subrange(0, noted.len() as int) == noted,
                        forall|t: int|
                            noted.len() <= t < parents@.len() ==> #[trigger] parents@[t] == Some(
                                index,
                            ),
                    decreases m - c,
                {
                    let ghost was = parents@;
                    parents.push(Some(index));
                    assert(parents@.subrange(0, noted.len() as int) =~= was.subrange(
                        0,
                        noted.len() as int,
                    ));
                    c = c + 1;
                }
                proof {
                    let more = parents@.subrange(noted.len() as int, parents@.len() as int);
                    assert(parents@ =~= noted + more);
                    lemma_linked_push(n_roots as nat, fanout@, noted, more, m, index);
                }
                proof {
                    let was = born;
                    born = born + more;
                    traces = traces.push(trace);
                    states = states.push(self.runners@);
                    let before = stacks;
                    stacks = stacks.push(stack@);
                    assert forall|i: int| 0 <= i < d + k + 1 implies #[trigger] stacks[i]
                        == on_path(models(done@), path(parents@, parents@[i])) by {
                        assert(noted[i] matches Some(q) ==> q < d);
                        assert(parents@[i] == noted[i]);
                        lemma_stack_kept(models(done@), models(done@), noted, parents@, noted[i]);
                        if i < d + k {
                            assert(stacks[i] == before[i]);
                        }
                    }
                    assert forall|q: int| k + 1 <= q < frontier@.len() implies #[trigger] born[d
                        + q] == models(frontier@)[q] by {
                        assert(was[d + q] == level[q]);
                    }
                    assert forall|q: int| 0 <= q < (coming + more).len() implies #[trigger] born[d
                        + frontier@.len() + q] == (coming + more)[q] by {
                        if q < coming.len() {
                            assert(was[d + frontier@.len() + q] == coming[q]);
                        }
                    }
                    assert forall|i: int| 0 <= i < n_roots implies #[trigger] born[i]
                        == given[i] by {
                        assert(was[i] == given[i]);
                    }
                }
                next.append(&mut kids);
                assert(models(next@) =~= coming + more);
                fanout.push(m);
                claims = claims + claimed;
                k = k + 1;
            }
            proof {
                assert(models(done@ + frontier@) =~= models(done@) + models(frontier@));
                if clean {
                    let both = models(done@) + models(frontier@);
                    assert forall|i: int| 0 <= i < both.len() implies in_place(
                        #[trigger] both[i],
                        buffer,
                    ) by {
                        if i < done@.len() {
                            assert(both[i] == models(done@)[i]);
                        } else {
                            assert(both[i] == models(frontier@)[i - done@.len()]);
                        }
                    }
                }
            }
            let ghost complete = models(done@);
            let ghost level = models(frontier@);
            done.append(&mut frontier);
            frontier = next;
            proof {
                assert(models(done@) =~= complete + level);
                assert forall|i: int| 0 <= i < done@.len() implies visited(
                    n_roots as nat,
                    states,
                    #[trigger] stacks[i],
                    born,
                    models(done@) + models(frontier@),
                    fanout@,
                    traces,
                    i,
                ) by {
                    assert(visited(
                        n_roots as nat,
                        states,
                        stacks[i],
                        born,
                        complete + level,
                        fanout@,
                        traces,
                        i,
                    ));
                }
                assert forall|i: int| 0 <= i < done@.len() implies #[trigger] stacks[i]
                    == on_path(models(done@), path(parents@, parents@[i])) by {
                    assert(parents@[i] matches Some(q) ==> q < d);
                    lemma_stack_kept(complete, models(done@), parents@, parents@, parents@[i]);
                }
                assert forall|j: int| 0 <= j < n_roots implies grew(
                    #[trigger] (models(done@) + models(frontier@))[j],
                    given[j],
                ) by {
                    assert((models(done@) + models(frontier@))[j] == models(done@)[j]);
                }
            }
        }
        proof {
            assert(models(done@) + models(frontier@) =~= models(done@));
            crate::tree::lemma_shape_determines_parents(n_roots as nat, fanout@, parents@);
            if clean && done@.len() > 0 {
                assert(fanout@.take(0) =~= Seq::<usize>::empty());
                assert(first_child(n_roots as nat, fanout@, 0) > 0);
                assert(grew(models(done@)[0], given[0]));
            }
        }
        let e = Expansion {
            layers: done,
            fanout,
            parents,
            claims,
            born: Ghost(born),
            traces: Ghost(traces),
            states: Ghost(states),
        };
        proof {
            assert forall|i: int| 0 <= i < e.spec_layers().len() implies visited(
                n_roots as nat,
                e.spec_states(),
                e.stack_of(i),
                e.spec_born(),
                e.spec_layers(),
                e.spec_fanout(),
                e.spec_traces(),
                i,
            ) by {
                assert(visited(
                    n_roots as nat,
                    states,
                    stacks[i],
                    born,
                    models(done@) + models(frontier@),
                    fanout@,
                    traces,
                    i,
                ));
            }
        }
        e
    }
}

/// The numbers of `fanout` as bytes. None of them is more than `MAX_FANOUT` where the
/// numbers are those of a dissection, so each byte holds its number.
pub open spec fn bytes_of(fanout: Seq<usize>) -> Seq<u8> {
    Seq::new(fanout.len(), |i: int| fanout[i] as u8)
}

/// `after` is what the runners `runners` make of the frame `before`, with the expansion
/// `e`, which leaves them as `left`: the layers of `before` are the roots of the
/// expansion; the layers of `after` are those of the expansion, the layers of `before`
/// first, with what was added to them; and the number of the children of each layer
/// stands behind the numbers that `before` had.
pub open spec fn dissected(
    runners: Seq<OnceRunner>,
    left: Seq<OnceRunner>,
    before: FrameModel,
    after: FrameModel,
    e: Expansion,
) -> bool {
    &&& after.index == before.index
    &&& after.data == before.data
    &&& e.wf(before.layers.len())
    &&& e.traced(runners, left, before.layers)
    &&& after.layers == e.spec_layers()
    &&& before.layers.len() <= after.layers.len()
    &&& forall|i: int|
        0 <= i < before.layers.len() ==> grew(#[trigger] after.layers[i], before.layers[i])
    &&& after.tree_indices == before.tree_indices + bytes_of(e.spec_fanout())
}

/// `after` is what the runners `runners` make of the frame `before`, and they are left
/// as `left`.
pub open spec fn was_dissected(
    runners: Seq<OnceRunner>,
    left: Seq<OnceRunner>,
    before: FrameModel,
    after: FrameModel,
) -> bool {
    exists|e: Expansion| dissected(runners, left, before, after, e)
}

/// A frame that was dissected once holds the shape of its tree: the numbers it holds are
/// the numbers of children, its roots are the layers it had before, and so every layer
/// behind the roots has the one parent that `Frame::parent` finds.
pub proof fn lemma_dissected_shape(
    runners: Seq<OnceRunner>,
    left: Seq<OnceRunner>,
    before: FrameModel,
    after: FrameModel,
    e: Expansion,
)
    requires
        dissected(runners, left, before, after, e),
        before.tree_indices.len() == 0,
    ensures
        after.shape() == e.spec_fanout(),
        after.roots() == before.layers.len(),
        after.well_shaped(),
{
    let fanout = e.spec_fanout();
    assert forall|i: int| 0 <= i < fanout.len() implies #[trigger] fanout[i] <= MAX_FANOUT by {
        assert(visited(
            before.layers.len(),
            e.spec_states(),
            e.stack_of(i),
            e.spec_born(),
            e.spec_layers(),
            fanout,
            e.spec_traces(),
            i,
        ));
    }
    assert(after.tree_indices =~= bytes_of(fanout));
    assert(after.shape() =~= fanout);
}

/// Whatever a runner may do after some layers were decoded, it might have done before
/// the first of them.
proof fn lemma_states_within(
    e: Expansion,
    runners: Seq<OnceRunner>,
    left: Seq<OnceRunner>,
    given: Seq<LayerModel>,
    i: int,
)
    requires
        e.traced(runners, left, given),
        0 <= i <= e.spec_layers().len(),
    ensures
        e.spec_states()[i].len() == runners.len(),
        forall|j: int|
            0 <= j < runners.len() ==> (#[trigger] e.spec_states()[i][j]).inner().within(
                runners[j].inner(),
            ),
    decreases i,
{
    reveal(decoded);
    if i > 0 {
        lemma_states_within(e, runners, left, given, i - 1);
        assert(visited(
            given.len(),
            e.spec_states(),
            e.stack_of(i - 1),
            e.spec_born(),
            e.spec_layers(),
            e.spec_fanout(),
            e.spec_traces(),
            i - 1,
        ));
        assert forall|j: int| 0 <= j < runners.len() implies (
        #[trigger] e.spec_states()[i][j]).inner().within(runners[j].inner()) by {
            assert(e.spec_states()[i][j].inner().within(e.spec_states()[i - 1][j].inner()));
            assert(e.spec_states()[i - 1][j].inner().within(runners[j].inner()));
        }
    }
}

/// A runner that is used when some layer is decoded is used when any later layer is.
proof fn lemma_used_stays(
    e: Expansion,
    runners: Seq<OnceRunner>,
    left: Seq<OnceRunner>,
    given: Seq<LayerModel>,
    i: int,
    k: int,
    j: int,
)
    requires
        e.traced(runners, left, given),
        0 <= i <= k <= e.spec_layers().len(),
        0 <= j < runners.len(),
        e.spec_states()[i][j].used(),
    ensures
        e.spec_states()[k][j].used(),
    decreases k - i,
{
    reveal(decoded);
    if i < k {
        lemma_states_within(e, runners, left, given, i);
        assert(visited(
            given.len(),
            e.spec_states(),
            e.stack_of(i),
            e.spec_born(),
            e.spec_layers(),
            e.spec_fanout(),
            e.spec_traces(),
            i,
        ));
        lemma_used_stays(e, runners, left, given, i + 1, k, j);
    }
}

/// No runner claims twice in a dissection: two claims, of one layer or of two, are made
/// by two runners.
pub proof fn lemma_one_claim(
    e: Expansion,
    runners: Seq<OnceRunner>,
    left: Seq<OnceRunner>,
    given: Seq<LayerModel>,
    i: int,
    a: int,
    k: int,
    b: int,
)
    requires
        e.traced(runners, left, given),
        0 <= i <= k < e.spec_layers().len(),
        0 <= a < e.spec_traces()[i].len(),
        0 <= b < e.spec_traces()[k].len(),
        i != k || a != b,
    ensures
        e.spec_traces()[i][a].runner != e.spec_traces()[k][b].runner,
{
    reveal(decoded);
    assert(visited(
        given.len(),
        e.spec_states(),
        e.stack_of(i),
        e.spec_born(),
        e.spec_layers(),
        e.spec_fanout(),
        e.spec_traces(),
        i,
    ));
    assert(visited(
        given.len(),
        e.spec_states(),
        e.stack_of(k),
        e.spec_born(),
        e.spec_layers(),
        e.spec_fanout(),
        e.spec_traces(),
        k,
    ));
    let first = e.spec_traces()[i][a];
    let second = e.spec_traces()[k][b];
    if i < k {
        lemma_states_within(e, runners, left, given, i);
        assert(e.spec_states()[i + 1][first.runner].used());
        lemma_used_stays(e, runners, left, given, i + 1, k, first.runner);
        assert(!e.spec_states()[k][second.runner].used());
    } else {
        if a < b {
            assert(first.runner != second.runner);
        } else {
            assert(second.runner != first.runner);
        }
    }
}

/// What a dissection says of the runners as each layer found them holds of the runners
/// as they were given: every claim of a layer is a step that the runner as given may
/// make, with the answer `Done`; and every runner that is not used once the layer is
/// decoded may, as given, make a step for the layer as it is left that is no claim.
pub proof fn lemma_claims_of_given(
    e: Expansion,
    runners: Seq<OnceRunner>,
    left: Seq<OnceRunner>,
    given: Seq<LayerModel>,
    i: int,
)
    requires
        e.traced(runners, left, given),
        0 <= i < e.spec_layers().len(),
    ensures
        forall|a: int|
            0 <= a < e.spec_traces()[i].len() ==> {
                let c = #[trigger] e.spec_traces()[i][a];
                &&& 0 <= c.runner < runners.len()
                &&& c.answer matches Ok(Status::Done(_))
                &&& runners[c.runner].inner().step(
                    c.seen,
                    e.stack_of(i),
                    c.answer,
                    c.attrs,
                    c.payloads,
                    c.own,
                )
            },
        e.spec_states()[i + 1].len() == runners.len(),
        forall|j: int|
            0 <= j < runners.len() ==> rests(
                #[trigger] runners[j],
                e.spec_states()[i + 1][j].used(),
                e.spec_layers()[i],
                e.stack_of(i),
            ),
{
    reveal(decoded);
    lemma_states_within(e, runners, left, given, i);
    lemma_states_within(e, runners, left, given, i + 1);
    assert(visited(
        given.len(),
        e.spec_states(),
        e.stack_of(i),
        e.spec_born(),
        e.spec_layers(),
        e.spec_fanout(),
        e.spec_traces(),
        i,
    ));
    let trace = e.spec_traces()[i];
    let now = e.spec_states()[i];
    assert forall|a: int| 0 <= a < trace.len() implies {
        let c = #[trigger] trace[a];
        &&& 0 <= c.runner < runners.len()
        &&& c.answer matches Ok(Status::Done(_))
        &&& runners[c.runner].inner().step(
            c.seen,
            e.stack_of(i),
            c.answer,
            c.attrs,
            c.payloads,
            c.own,
        )
    } by {
        let c = trace[a];
        assert(now[c.runner].inner().within(runners[c.runner].inner()));
    }
    assert forall|j: int| 0 <= j < runners.len() implies rests(
        #[trigger] runners[j],
        e.spec_states()[i + 1][j].used(),
        e.spec_layers()[i],
        e.stack_of(i),
    ) by {
        assert(rests(now[j], e.spec_states()[i + 1][j].used(), e.spec_layers()[i], e.stack_of(i)));
        assert(now[j].inner().within(runners[j].inner()));
    }
}

/// Numbers that are all zero add up to zero.
proof fn lemma_total_zero(fanout: Seq<usize>)
    requires
        forall|i: int| 0 <= i < fanout.len() ==> #[trigger] fanout[i] == 0,
    ensures
        total(fanout) == 0,
    decreases fanout.len(),
{
    if fanout.len() > 0 {
        lemma_total_zero(fanout.drop_last());
    }
}

/// Runners that have no worker leave a frame as it is, but for the numbers of children:
/// no layer is claimed, so the layers are those that the frame had, unchanged, and each
/// has no child.
pub proof fn lemma_idle_dissection(
    runners: Seq<OnceRunner>,
    left: Seq<OnceRunner>,
    before: FrameModel,
    after: FrameModel,
    e: Expansion,
)
    requires
        dissected(runners, left, before, after, e),
        forall|j: int| 0 <= j < runners.len() ==> !(#[trigger] runners[j]).inner().has_worker(),
    ensures
        after.layers == before.layers,
        after.tree_indices == before.tree_indices + Seq::new(
            before.layers.len(),
            |i: int| 0u8,
        ),
{
    reveal(decoded);
    let fanout = e.spec_fanout();
    let n = e.spec_layers().len() as int;
    let roots = before.layers.len();
    assert forall|i: int| 0 <= i < n implies #[trigger] fanout[i] == 0 && e.spec_layers()[i]
        == e.spec_born()[i] by {
        assert(visited(
            roots,
            e.spec_states(),
            e.stack_of(i),
            e.spec_born(),
            e.spec_layers(),
            fanout,
            e.spec_traces(),
            i,
        ));
        let trace = e.spec_traces()[i];
        if trace.len() > 0 {
            let c = trace[0];
            lemma_states_within(e, runners, left, before.layers, i);
            assert(e.spec_states()[i][c.runner].inner().within(runners[c.runner].inner()));
            assert(e.spec_states()[i][c.runner].inner().step(
                c.seen,
                e.stack_of(i),
                c.answer,
                c.attrs,
                c.payloads,
                c.own,
            ));
            assert(runners[c.runner].inner().step(
                c.seen,
                e.stack_of(i),
                c.answer,
                c.attrs,
                c.payloads,
                c.own,
            ));
            assert(!runners[c.runner].inner().has_worker());
            assert(false);
        }
        assert(offspring(trace).len() == 0);
        let first = first_child(roots, fanout, i) as int;
        assert(e.spec_born().subrange(first, first + fanout[i]).len() == 0);
    }
    lemma_total_zero(fanout);
    assert(n == roots);
    assert forall|i: int| 0 <= i < n implies after.layers[i] == before.layers[i] by {
        assert(fanout[i] == 0 && e.spec_layers()[i] == e.spec_born()[i]);
    }
    assert(after.layers =~= before.layers);
    assert(after.tree_indices =~= before.tree_indices + Seq::new(roots, |i: int| 0u8));
}

impl Dispatcher {
    /// The frame numbered `index` whose capture `root` covers, dissected. Where no worker
    /// copies bytes and `root` has no payload on other bytes than its own, every layer of
    /// the frame is laid over the captured bytes.
    pub fn dissect(&mut self, index: u32, root: Layer) -> (frame: Frame)
        ensures
            final(self).spec_runners().len() == old(self).spec_runners().len(),
            was_dissected(
                old(self).spec_runners(),
                final(self).spec_runners(),
                (FrameModel {
                    index,
                    data: root@.data,
                    layers: seq![root@],
                    tree_indices: Seq::<u8>::empty(),
                }),
                frame@,
            ),
            old(self).zero_copy() ==> final(self).zero_copy(),
            old(self).zero_copy() && in_place(root@, root@.data.buffer()) ==> frame@.in_place(),
    {
        let mut frame = Frame::new(index, root);
        assert(frame@.layers[0] == root@);
        assert(frame@.layers =~= seq![root@]);
        self.process_frame(&mut frame);
        frame
    }

    /// Dissects `frame`, as `dissected` says: its layers are the roots of the dissection
    /// that `expand` makes, and the frame then holds all layers and, behind the numbers
    /// it had, the number of children of each. Where no runner has a worker, the layers
    /// stay as they are and each gets the number zero.
    pub fn process_frame(&mut self, frame: &mut Frame)
        ensures
            final(self).spec_runners().len() == old(self).spec_runners().len(),
            was_dissected(
                old(self).spec_runners(),
                final(self).spec_runners(),
                old(frame)@,
                final(frame)@,
            ),
            (forall|j: int|
                0 <= j < old(self).spec_runners().len() ==> !(#[trigger] old(
                    self,
                ).spec_runners()[j]).inner().has_worker()) ==> final(frame)@.layers == old(
                frame,
            )@.layers && final(frame)@.tree_indices == old(frame)@.tree_indices + Seq::new(
                old(frame)@.layers.len(),
                |i: int| 0u8,
            ),
            old(self).zero_copy() ==> final(self).zero_copy(),
            old(self).zero_copy() && old(frame)@.in_place() ==> final(frame)@.in_place(),
    {
        let roots = frame.take_layers();
        let e = self.expand(roots);
        proof {
            let given = models(roots@);
            if old(self).zero_copy() && old(frame)@.in_place() {
                if given.len() > 0 {
                    assert(in_place(given[0], old(frame)@.data.buffer()));
                    assert(grew(e.spec_layers()[0], given[0]));
                } else {
                    assert(e.spec_fanout().take(0) =~= Seq::<usize>::empty());
                    if e.spec_layers().len() > 0 {
                        assert(first_child(0, e.spec_fanout(), 0) > 0);
                    }
                }
            }
        }
        let ghost made = e;
        let (mut layers, fanout) = e.into_parts();
        let mut indices: Vec<u8> = Vec::new();
        let mut i: usize = 0;
        while i < fanout.len()
            invariant
                i <= fanout@.len(),
                indices@ == bytes_of(fanout@.take(i as int)),
                fanout@ == made.spec_fanout(),
                made.traced(old(self).spec_runners(), self.spec_runners(), models(roots@)),
                fanout@.len() == made.spec_layers().len(),
            decreases fanout@.len() - i,
        {
            proof {
                assert(visited(
                    models(roots@).len(),
                    made.spec_states(),
                    made.stack_of(i as int),
                    made.spec_born(),
                    made.spec_layers(),
                    made.spec_fanout(),
                    made.spec_traces(),
                    i as int,
                ));
            }
            indices.push(fanout[i] as u8);
            assert(indices@ =~= bytes_of(fanout@.take(i + 1)));
            i = i + 1;
        }
        assert(fanout@.take(i as int) =~= fanout@);
        let ghost all = models(layers@);
        frame.append_layers(&mut layers);
        frame.append_tree_indices(&mut indices);
        proof {
            assert(frame@.layers =~= all);
            assert(dissected(
                old(self).spec_runners(),
                self.spec_runners(),
                old(frame)@,
                frame@,
                made,
            ));
            if forall|j: int|
                0 <= j < old(self).spec_runners().len() ==> !(#[trigger] old(
                    self,
                ).spec_runners()[j]).inner().has_worker() {
                lemma_idle_dissection(
                    old(self).spec_runners(),
                    self.spec_runners(),
                    old(frame)@,
                    frame@,
                    made,
                );
            }
        }
    }
}

} // verus!
