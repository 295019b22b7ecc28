use crate::context::Context;
use crate::error::{Error, ErrorKind};
use crate::attr::Attr;
use crate::layer::{
    all_in_place, models, Layer, LayerModel, LayerProxy, LayerStack, Payload,
};
use std::sync::Arc;
use vstd::prelude::*;

verus! {

/// When the workers of a decoder run.
#[derive(Clone, Copy, Debug, PartialEq, Eq, Structural)]
pub enum ExecType {
    /// On any thread, frames in any order; a worker keeps nothing from frame to frame.
    ParallelSync,
    /// On one thread, frames in their order; a worker may keep state.
    SerialSync,
    /// As `SerialSync`, off the thread that takes the frames in.
    SerialAsync,
}

impl ExecType {
    /// The number that stands for the type where a byte must do.
    pub open spec fn spec_code(&self) -> u8 {
        match *self {
            ExecType::ParallelSync => 0,
            ExecType::SerialSync => 1,
            ExecType::SerialAsync => 2,
        }
    }

    /// The type that a number stands for; a number that stands for none is taken as
    /// `ParallelSync`.
    pub open spec fn spec_from_code(code: u8) -> ExecType {
        if code == 1 {
            ExecType::SerialSync
        } else if code == 2 {
            ExecType::SerialAsync
        } else {
            ExecType::ParallelSync
        }
    }

    #[verifier::when_used_as_spec(spec_code)]
    pub fn code(&self) -> (c: u8)
        ensures
            c == self.spec_code(),
    {
        match self {
            ExecType::ParallelSync => 0,
            ExecType::SerialSync => 1,
            ExecType::SerialAsync => 2,
        }
    }

    #[verifier::when_used_as_spec(spec_from_code)]
    pub fn from_code(code: u8) -> (t: ExecType)
        ensures
            t == Self::spec_from_code(code),
    {
        match code {
            1 => ExecType::SerialSync,
            2 => ExecType::SerialAsync,
            _ => ExecType::ParallelSync,
        }
    }
}

/// What a worker says of a layer.
#[derive(Debug)]
pub enum Status {
    /// The layer is the worker's; these are the children it holds.
    Done(Vec<Layer>),
    /// The layer is not for this worker.
    Skip,
}

/// Decodes layers. A worker reads the layer and the layers above it on its path, adds
/// attributes, payloads and children through the proxy, and answers `Done` with more
/// children, `Skip`, or an error.
pub trait Worker {
    /// The worker copies no bytes: every layer and payload that it makes is laid over the
    /// bytes of the buffer of the layer that it decodes. A worker says so of itself; one
    /// that says nothing has not promised it.
    open spec fn zero_copy(&self) -> bool {
        false
    }

    /// `r` is an answer that the worker may give for the layer `target` under the stack
    /// `stack`. A worker says of itself which answers it gives; one that says nothing
    /// may give any.
    open spec fn may_answer(
        &self,
        target: LayerModel,
        stack: Seq<LayerModel>,
        r: Result<Status, Error>,
    ) -> bool {
        true
    }

    /// `attrs`, `payloads` and `children` are what the worker may add through the proxy
    /// for the layer `target` under the stack `stack`, each in its order. A worker says
    /// of itself what it adds; one that says nothing may add anything.
    open spec fn may_add(
        &self,
        target: LayerModel,
        stack: Seq<LayerModel>,
        attrs: Seq<Attr>,
        payloads: Seq<Payload>,
        children: Seq<LayerModel>,
    ) -> bool {
        true
    }

    /// Decodes one layer. The answer is one that the worker may give, and what the proxy
    /// has gained is what the worker may add. Whatever the answer, the proxy is still for
    /// the same layer and nothing that it held is lost or reordered. What the worker may
    /// answer and add afterwards, it might have answered and added before: a worker that
    /// keeps state says of itself what it may do in any state that it can reach. A worker
    /// that copies no bytes stays so; and where the layer and what the proxy held were
    /// laid over the bytes of the layer's buffer, all that the worker adds or answers is
    /// so too.
    fn decode(&mut self, ctx: &mut Context, stack: &LayerStack, layer: &mut LayerProxy) -> (r:
        Result<Status, Error>)
        ensures
            old(self).may_answer(old(layer).target(), stack@, r),
            old(self).may_add(
                old(layer).target(),
                stack@,
                final(layer).gained_attrs(*old(layer)),
                final(layer).gained_payloads(*old(layer)),
                final(layer).gained_children(*old(layer)),
            ),
            forall|t: LayerModel, s: Seq<LayerModel>, a: Result<Status, Error>| #[trigger]
                final(self).may_answer(t, s, a) ==> old(self).may_answer(t, s, a),
            forall|
                t: LayerModel,
                s: Seq<LayerModel>,
                x: Seq<Attr>,
                y: Seq<Payload>,
                z: Seq<LayerModel>,
            | #[trigger]
                final(self).may_add(t, s, x, y, z) ==> old(self).may_add(t, s, x, y, z),
            final(layer).extends(*old(layer)),
            old(self).zero_copy() ==> final(self).zero_copy(),
            old(self).zero_copy() && old(layer).in_place() ==> final(layer).in_place()
                && answered_in_place(r, old(layer).target().data.buffer()),
    ;
}

/// The children of the answer `r`, where it has any, are laid over the bytes `buffer`.
pub open spec fn answered_in_place(r: Result<Status, Error>, buffer: Seq<u8>) -> bool {
    match r {
        Ok(Status::Done(children)) => all_in_place(models(children@), buffer),
        _ => true,
    }
}

/// The most children that one call of a worker hands on. Children beyond these are
/// dropped without an error.
pub const MAX_CHILDREN: usize = 254;

/// A worker as the dispatcher holds it.
pub struct WorkerBox {
    worker: Option<Box<dyn Worker>>,
}

impl WorkerBox {
    /// The worker in the box copies no bytes.
    pub closed spec fn zero_copy(&self) -> bool {
        self.worker matches Some(w) ==> w.zero_copy()
    }

    /// `a` is an answer that the worker in the box may give for the layer `target` under
    /// the stack `stack`. A box without a worker skips every layer.
    pub closed spec fn may_answer(
        &self,
        target: LayerModel,
        stack: Seq<LayerModel>,
        a: Result<Status, Error>,
    ) -> bool {
        match self.worker {
            Some(w) => w.may_answer(target, stack, a),
            None => a matches Ok(Status::Skip),
        }
    }

    /// `attrs`, `payloads` and `children` are what the worker in the box may add through
    /// the proxy for the layer `target` under the stack `stack`. A box without a worker
    /// adds nothing.
    pub closed spec fn may_add(
        &self,
        target: LayerModel,
        stack: Seq<LayerModel>,
        attrs: Seq<Attr>,
        payloads: Seq<Payload>,
        children: Seq<LayerModel>,
    ) -> bool {
        match self.worker {
            Some(w) => w.may_add(target, stack, attrs, payloads, children),
            None => attrs.len() == 0 && payloads.len() == 0 && children.len() == 0,
        }
    }

    /// Whatever the worker in the box may answer or add, the worker in `other` may too.
    pub open spec fn within(&self, other: WorkerBox) -> bool {
        &&& forall|t: LayerModel, s: Seq<LayerModel>, a: Result<Status, Error>| #[trigger]
            self.may_answer(t, s, a) ==> other.may_answer(t, s, a)
        &&& forall|
            t: LayerModel,
            s: Seq<LayerModel>,
            x: Seq<Attr>,
            y: Seq<Payload>,
            z: Seq<LayerModel>,
        | #[trigger]
            self.may_add(t, s, x, y, z) ==> other.may_add(t, s, x, y, z)
    }

    /// Whatever the worker in the box may answer or add, the decoder in `decoder` says
    /// that its workers may.
    pub open spec fn made_by(&self, decoder: DecoderBox) -> bool {
        &&& forall|t: LayerModel, s: Seq<LayerModel>, a: Result<Status, Error>| #[trigger]
            self.may_answer(t, s, a) ==> decoder.worker_may_answer(t, s, a)
        &&& forall|
            t: LayerModel,
            s: Seq<LayerModel>,
            x: Seq<Attr>,
            y: Seq<Payload>,
            z: Seq<LayerModel>,
        | #[trigger]
            self.may_add(t, s, x, y, z) ==> decoder.worker_may_add(t, s, x, y, z)
    }

    /// The box with the worker `worker`: it answers and adds as the worker does.
    pub fn new(worker: Box<dyn Worker>) -> (w: WorkerBox)
        ensures
            w.zero_copy() == worker.zero_copy(),
            forall|target: LayerModel, stack: Seq<LayerModel>, a: Result<Status, Error>|
                #[trigger] w.may_answer(target, stack, a) == worker.may_answer(target, stack, a),
            forall|
                t: LayerModel,
                s: Seq<LayerModel>,
                x: Seq<Attr>,
                y: Seq<Payload>,
                z: Seq<LayerModel>,
            | #[trigger]
                w.may_add(t, s, x, y, z) == worker.may_add(t, s, x, y, z),
    {
        let worker = Some(worker);
        WorkerBox { worker }
    }

    /// A box without a worker, which skips every layer and adds nothing.
    pub(crate) fn empty() -> (w: WorkerBox)
        ensures
            w.zero_copy(),
            forall|t: LayerModel, s: Seq<LayerModel>, a: Result<Status, Error>| #[trigger]
                w.may_answer(t, s, a) ==> a matches Ok(Status::Skip),
            forall|
                t: LayerModel,
                s: Seq<LayerModel>,
                x: Seq<Attr>,
                y: Seq<Payload>,
                z: Seq<LayerModel>,
            | #[trigger]
                w.may_add(t, s, x, y, z) ==> x.len() == 0 && y.len() == 0 && z.len() == 0,
    {
        WorkerBox { worker: None }
    }

    /// The first `MAX_CHILDREN` of `children`, or all of them where they are fewer.
    pub open spec fn kept(children: Seq<LayerModel>) -> Seq<LayerModel> {
        if children.len() <= MAX_CHILDREN {
            children
        } else {
            children.take(MAX_CHILDREN as int)
        }
    }

    /// `r` with the results `after` is what the dispatcher is told of the answer
    /// `answer`, where the results were `before`. `Done` puts the children kept in the
    /// results, in place of what was there, and gives `true`; `Skip` gives `false`; an
    /// error comes out as a decode error with the same description. The last two leave
    /// the results alone.
    pub open spec fn concluded(
        answer: Result<Status, Error>,
        r: Result<bool, Error>,
        before: Vec<Layer>,
        after: Vec<Layer>,
    ) -> bool {
        match answer {
            Ok(Status::Done(children)) => {
                &&& r == Ok::<bool, Error>(true)
                &&& models(after@) == Self::kept(models(children@))
                &&& after@.len() <= MAX_CHILDREN
            },
            Ok(Status::Skip) => {
                &&& r == Ok::<bool, Error>(false)
                &&& after == before
            },
            Err(e) => {
                &&& r matches Err(f) && f.spec_kind() == ErrorKind::Decode && f.spec_description()
                    == e.spec_description()
                &&& after == before
            },
        }
    }

    /// What the dispatcher is told of a worker's answer, as `concluded` says.
    pub fn conclude(answer: Result<Status, Error>, results: &mut Vec<Layer>) -> (r: Result<
        bool,
        Error,
    >)
        ensures
            Self::concluded(answer, r, *old(results), *final(results)),
    {
        match answer {
            Ok(Status::Done(children)) => {
                let mut children = children;
                let ghost all = children@;
                children.truncate(MAX_CHILDREN);
                assert(models(children@) =~= Self::kept(models(all)));
                *results = children;
                Ok(true)
            },
            Ok(Status::Skip) => Ok(false),
            Err(e) => Err(Error::new(e.description())),
        }
    }

    /// Lets the worker decode one layer and tells what it answered: the outcome is what
    /// `conclude` makes of an answer that the worker may give for the layer under the
    /// stack. Whatever the worker does: the proxy is still for the same layer and has lost
    /// nothing; `results` is replaced, by at most `MAX_CHILDREN` layers, on `Ok(true)`
    /// and on nothing else; an error is a decode error. A worker that copies no bytes
    /// stays so, and where the layer and what the proxy held were laid over the bytes of
    /// the layer's buffer, so are what the proxy holds and the results afterwards.
    pub fn decode(
        &mut self,
        ctx: &mut Context,
        stack: &LayerStack,
        layer: &mut LayerProxy,
        results: &mut Vec<Layer>,
    ) -> (r: Result<bool, Error>)
        ensures
            exists|a: Result<Status, Error>| #[trigger]
                old(self).may_answer(old(layer).target(), stack@, a) && Self::concluded(
                    a,
                    r,
                    *old(results),
                    *final(results),
                ),
            old(self).may_add(
                old(layer).target(),
                stack@,
                final(layer).gained_attrs(*old(layer)),
                final(layer).gained_payloads(*old(layer)),
                final(layer).gained_children(*old(layer)),
            ),
            final(self).within(*old(self)),
            final(layer).extends(*old(layer)),
            r matches Ok(true) ==> final(results)@.len() <= MAX_CHILDREN,
            !(r matches Ok(true)) ==> *final(results) == *old(results),
            r matches Err(e) ==> e.spec_kind() == ErrorKind::Decode,
            old(self).zero_copy() ==> final(self).zero_copy(),
            old(self).zero_copy() && old(layer).in_place() ==> final(layer).in_place() && (r
                == Ok::<bool, Error>(true) ==> all_in_place(
                models(final(results)@),
                old(layer).target().data.buffer(),
            )),
    {
        match &mut self.worker {
            Some(worker) => {
                let answer = worker.decode(ctx, stack, layer);
                let ghost a = answer;
                let r = Self::conclude(answer, results);
                assert(old(self).may_answer(old(layer).target(), stack@, a) && Self::concluded(
                    a,
                    r,
                    *old(results),
                    *results,
                ));
                r
            },
            None => {
                let ghost a = Ok::<Status, Error>(Status::Skip);
                assert(old(self).may_answer(old(layer).target(), stack@, a) && Self::concluded(
                    a,
                    Ok::<bool, Error>(false),
                    *old(results),
                    *results,
                ));
                Ok(false)
            },
        }
    }
}

/// Makes workers. A decoder keeps no state and may be shared between threads.
pub trait Decoder: Send + Sync {
    /// The workers of the decoder copy no bytes. A decoder says so of itself; one that
    /// says nothing has not promised it.
    open spec fn zero_copy(&self) -> bool {
        false
    }

    /// `a` is an answer that a worker of the decoder may give for the layer `target`
    /// under the stack `stack`. A decoder says of itself what its workers answer; one
    /// that says nothing has workers that may give any answer.
    open spec fn worker_may_answer(
        &self,
        target: LayerModel,
        stack: Seq<LayerModel>,
        a: Result<Status, Error>,
    ) -> bool {
        true
    }

    /// `attrs`, `payloads` and `children` are what a worker of the decoder may add
    /// through the proxy for the layer `target` under the stack `stack`.
    open spec fn worker_may_add(
        &self,
        target: LayerModel,
        stack: Seq<LayerModel>,
        attrs: Seq<Attr>,
        payloads: Seq<Payload>,
        children: Seq<LayerModel>,
    ) -> bool {
        true
    }

    /// A new worker for the settings of `ctx`. Whatever it may answer or add, the decoder
    /// says that its workers may. It copies no bytes where the decoder says that its
    /// workers do not.
    fn new_worker(&self, ctx: &Context) -> (w: WorkerBox)
        ensures
            self.zero_copy() ==> w.zero_copy(),
            forall|t: LayerModel, s: Seq<LayerModel>, a: Result<Status, Error>| #[trigger]
                w.may_answer(t, s, a) ==> self.worker_may_answer(t, s, a),
            forall|
                t: LayerModel,
                s: Seq<LayerModel>,
                x: Seq<Attr>,
                y: Seq<Payload>,
                z: Seq<LayerModel>,
            | #[trigger]
                w.may_add(t, s, x, y, z) ==> self.worker_may_add(t, s, x, y, z),
    ;

    /// `t` is a phase that the decoder may declare for its workers. A decoder says of
    /// itself which phase it declares; one that says nothing may declare any.
    open spec fn may_declare(&self, t: ExecType) -> bool {
        true
    }

    /// When the workers of this decoder run.
    fn execution_type(&self) -> (t: ExecType)
        ensures
            self.may_declare(t),
    ;
}

/// The way from a decoder to the box that a profile holds.
pub trait DecoderClone {
    fn clone_box(&self) -> (d: DecoderBox);

    fn into_box(self) -> (d: DecoderBox);
}

impl<T> DecoderClone for T where T: 'static + Decoder + Clone {
    fn clone_box(&self) -> (d: DecoderBox) {
        DecoderBox::new(self.clone())
    }

    fn into_box(self) -> (d: DecoderBox) {
        DecoderBox::new(self)
    }
}

/// A decoder as a profile holds it. Copies of the box share the one decoder.
pub struct DecoderBox {
    decoder: Arc<Option<Box<dyn Decoder>>>,
}

impl DecoderBox {
    /// The workers of the decoder in the box copy no bytes.
    pub closed spec fn zero_copy(&self) -> bool {
        *self.decoder matches Some(d) ==> d.zero_copy()
    }

    /// `t` is a phase that the decoder in the box may declare for its workers.
    pub closed spec fn may_declare(&self, t: ExecType) -> bool {
        match *self.decoder {
            Some(d) => d.may_declare(t),
            None => t == ExecType::ParallelSync,
        }
    }

    /// `a` is an answer that a worker of the decoder in the box may give for the layer
    /// `target` under the stack `stack`.
    pub closed spec fn worker_may_answer(
        &self,
        target: LayerModel,
        stack: Seq<LayerModel>,
        a: Result<Status, Error>,
    ) -> bool {
        match *self.decoder {
            Some(d) => d.worker_may_answer(target, stack, a),
            None => a matches Ok(Status::Skip),
        }
    }

    /// `attrs`, `payloads` and `children` are what a worker of the decoder in the box may
    /// add through the proxy for the layer `target` under the stack `stack`.
    pub closed spec fn worker_may_add(
        &self,
        target: LayerModel,
        stack: Seq<LayerModel>,
        attrs: Seq<Attr>,
        payloads: Seq<Payload>,
        children: Seq<LayerModel>,
    ) -> bool {
        match *self.decoder {
            Some(d) => d.worker_may_add(target, stack, attrs, payloads, children),
            None => attrs.len() == 0 && payloads.len() == 0 && children.len() == 0,
        }
    }

    /// The decoder in the box says of itself what the decoder in `other` says of itself.
    pub open spec fn same_as(&self, other: DecoderBox) -> bool {
        &&& self.zero_copy() == other.zero_copy()
        &&& forall|t: ExecType| #[trigger] self.may_declare(t) == other.may_declare(t)
        &&& forall|t: LayerModel, s: Seq<LayerModel>, a: Result<Status, Error>| #[trigger]
            self.worker_may_answer(t, s, a) == other.worker_may_answer(t, s, a)
        &&& forall|
            t: LayerModel,
            s: Seq<LayerModel>,
            x: Seq<Attr>,
            y: Seq<Payload>,
            z: Seq<LayerModel>,
        | #[trigger]
            self.worker_may_add(t, s, x, y, z) == other.worker_may_add(t, s, x, y, z)
    }

    /// The decoder in the box says of itself what the decoder `inner` says of itself.
    pub open spec fn holds<T: Decoder>(&self, inner: T) -> bool {
        &&& self.zero_copy() == inner.zero_copy()
        &&& forall|t: ExecType| #[trigger] self.may_declare(t) == inner.may_declare(t)
        &&& forall|t: LayerModel, s: Seq<LayerModel>, a: Result<Status, Error>| #[trigger]
            self.worker_may_answer(t, s, a) == inner.worker_may_answer(t, s, a)
        &&& forall|
            t: LayerModel,
            s: Seq<LayerModel>,
            x: Seq<Attr>,
            y: Seq<Payload>,
            z: Seq<LayerModel>,
        | #[trigger]
            self.worker_may_add(t, s, x, y, z) == inner.worker_may_add(t, s, x, y, z)
    }

    /// A box with the decoder `diss`. What the decoder says of itself is known of a box
    /// that `from_box` has made of a boxed decoder.
    pub fn new<T: 'static + Decoder>(diss: T) -> (d: DecoderBox) {
        let decoder: Box<dyn Decoder> = Box::new(diss);
        DecoderBox::from_box(decoder)
    }

    /// A box with the decoder in `decoder`, of which it keeps what the decoder says of
    /// itself.
    pub fn from_box(decoder: Box<dyn Decoder>) -> (d: DecoderBox)
        ensures
            d.zero_copy() == decoder.zero_copy(),
            forall|t: ExecType| #[trigger] d.may_declare(t) == decoder.may_declare(t),
            forall|t: LayerModel, s: Seq<LayerModel>, a: Result<Status, Error>| #[trigger]
                d.worker_may_answer(t, s, a) == decoder.worker_may_answer(t, s, a),
            forall|
                t: LayerModel,
                s: Seq<LayerModel>,
                x: Seq<Attr>,
                y: Seq<Payload>,
                z: Seq<LayerModel>,
            | #[trigger]
                d.worker_may_add(t, s, x, y, z) == decoder.worker_may_add(t, s, x, y, z),
    {
        let decoder = Some(decoder);
        let decoder = Arc::new(decoder);
        DecoderBox { decoder }
    }

    /// A new worker of the decoder: whatever it may answer or add, the decoder says that
    /// its workers may. The box stays as it is.
    pub fn new_worker(&mut self, ctx: &Context) -> (w: WorkerBox)
        ensures
            *final(self) == *old(self),
            w.made_by(*old(self)),
            old(self).zero_copy() ==> w.zero_copy(),
    {
        match &*self.decoder {
            Some(decoder) => decoder.new_worker(ctx),
            None => WorkerBox::empty(),
        }
    }

    /// When the workers of the decoder run: a phase that the decoder may declare.
    pub fn execution_type(&self) -> (t: ExecType)
        ensures
            self.may_declare(t),
    {
        match &*self.decoder {
            Some(decoder) => decoder.execution_type(),
            None => ExecType::ParallelSync,
        }
    }
}

impl Clone for DecoderBox {
    /// A box that shares the decoder.
    fn clone(&self) -> (d: DecoderBox)
        ensures
            d.same_as(*self),
    {
        let decoder = self.decoder.clone();
        DecoderBox { decoder }
    }
}

} // verus!
