//! Dissectors: workers that see nothing but the layer they analyze. A dissector makes a
//! worker for a phase that is named by a word, or none where it has no work in that
//! phase.
use crate::context::Context;
use crate::decoder::MAX_CHILDREN;
use crate::error::{Error, ErrorKind};
use crate::layer::{grew, models, Layer, LayerModel};
use std::sync::Arc;
use vstd::prelude::*;

verus! {

/// What a worker says of a layer.
#[derive(Debug)]
pub enum Status {
    /// The layer is the worker's; these are its children.
    Done(Vec<Layer>),
    /// The layer is not for this worker.
    Skip,
}

/// Analyzes layers.
pub trait Worker {
    /// `r` is an answer that the worker may give for the layer `before`, which it leaves
    /// as `after`. A worker says of itself which answers it gives; one that says nothing
    /// may give any.
    open spec fn may_answer(
        &self,
        before: LayerModel,
        after: LayerModel,
        r: Result<Status, Error>,
    ) -> bool {
        true
    }

    /// Analyzes one layer. The answer is one that the worker may give. The worker may add
    /// attributes and payloads to the layer, and changes nothing else of it.
    fn analyze(&mut self, layer: &mut Layer) -> (r: Result<Status, Error>)
        ensures
            old(self).may_answer(old(layer)@, final(layer)@, r),
            grew(final(layer)@, old(layer)@),
    ;
}

/// A worker as a session holds it.
pub struct WorkerBox {
    worker: Option<Box<dyn Worker>>,
}

impl WorkerBox {
    /// `a` is an answer that the worker in the box may give for the layer `before`, which
    /// it leaves as `after`.
    pub closed spec fn may_answer(
        &self,
        before: LayerModel,
        after: LayerModel,
        a: Result<Status, Error>,
    ) -> bool {
        match self.worker {
            Some(w) => w.may_answer(before, after, a),
            None => a matches Ok(Status::Skip) && after == before,
        }
    }

    /// The box with the worker `worker`: it answers as the worker does.
    pub fn new(worker: Box<dyn Worker>) -> (w: WorkerBox)
        ensures
            forall|before: LayerModel, after: LayerModel, a: Result<Status, Error>|
                #[trigger] w.may_answer(before, after, a) == worker.may_answer(before, after, a),
    {
        let worker = Some(worker);
        WorkerBox { worker }
    }

    /// The first `MAX_CHILDREN` of `children`, or all of them where they are fewer.
    pub open spec fn kept(children: Seq<LayerModel>) -> Seq<LayerModel> {
        if children.len() <= MAX_CHILDREN {
            children
        } else {
            children.take(MAX_CHILDREN as int)
        }
    }

    /// `r` with the results `after` is what a session is told of the answer `answer`,
    /// where the results were `before`. `Done` puts the children kept in the results, in
    /// place of what was there, and gives `true`; `Skip` gives `false`; an error comes out
    /// as a decode error with the same description. The last two leave the results alone.
    pub open spec fn concluded(
        answer: Result<Status, Error>,
        r: Result<bool, Error>,
        before: Vec<Layer>,
        after: Vec<Layer>,
    ) -> bool {
        match answer {
            Ok(Status::Done(children)) => {
                &&& r == Ok::<bool, Error>(true)
                &&& models(after@) == Self::kept(models(children@))
                &&& after@.len() <= MAX_CHILDREN
            },
            Ok(Status::Skip) => {
                &&& r == Ok::<bool, Error>(false)
                &&& after == before
            },
            Err(e) => {
                &&& r matches Err(f) && f.spec_kind() == ErrorKind::Decode && f.spec_description()
                    == e.spec_description()
                &&& after == before
            },
        }
    }

    /// What a session is told of a worker's answer, as `concluded` says.
    pub fn conclude(answer: Result<Status, Error>, results: &mut Vec<Layer>) -> (r: Result<
        bool,
        Error,
    >)
        ensures
            Self::concluded(answer, r, *old(results), *final(results)),
    {
        match answer {
            Ok(Status::Done(children)) => {
                let mut children = children;
                let ghost all = children@;
                children.truncate(MAX_CHILDREN);
                assert(models(children@) =~= Self::kept(models(all)));
                *results = children;
                Ok(true)
            },
            Ok(Status::Skip) => Ok(false),
            Err(e) => Err(Error::new(e.description())),
        }
    }

    /// Lets the worker analyze `layer` and tells what it answered: the outcome is what
    /// `conclude` makes of an answer that the worker may give for the layer.
    pub fn analyze(&mut self, layer: &mut Layer, results: &mut Vec<Layer>) -> (r: Result<
        bool,
        Error,
    >)
        ensures
            exists|a: Result<Status, Error>| #[trigger]
                old(self).may_answer(old(layer)@, final(layer)@, a) && Self::concluded(
                    a,
                    r,
                    *old(results),
                    *final(results),
                ),
            grew(final(layer)@, old(layer)@),
            r matches Ok(true) ==> final(results)@.len() <= MAX_CHILDREN,
            !(r matches Ok(true)) ==> *final(results) == *old(results),
            r matches Err(e) ==> e.spec_kind() == ErrorKind::Decode,
    {
        match &mut self.worker {
            Some(worker) => {
                let answer = worker.analyze(layer);
                let ghost a = answer;
                let r = Self::conclude(answer, results);
                assert(old(self).may_answer(old(layer)@, layer@, a) && Self::concluded(
                    a,
                    r,
                    *old(results),
                    *results,
                ));
                r
            },
            None => {
                let ghost a = Ok::<Status, Error>(Status::Skip);
                assert(old(self).may_answer(old(layer)@, layer@, a) && Self::concluded(
                    a,
                    Ok::<bool, Error>(false),
                    *old(results),
                    *results,
                ));
                Ok(false)
            },
        }
    }
}

/// Makes workers. A dissector keeps no state and may be shared between threads.
pub trait Dissector: Send + Sync {
    /// The dissector may make a worker for the phase named `typ`, where `made` holds, or
    /// none, where it does not. A dissector says of itself for which phases it makes
    /// workers; one that says nothing may do either.
    open spec fn may_make(&self, typ: Seq<char>, made: bool) -> bool {
        true
    }

    /// A new worker for the phase named `typ`, or none where the dissector has no work in
    /// that phase.
    fn new_worker(&self, typ: &str, ctx: &Context) -> (w: Option<WorkerBox>)
        ensures
            self.may_make(typ@, w is Some),
    ;
}

/// The way from a dissector to the box that a profile holds.
pub trait DissectorClone {
    fn clone_box(&self) -> (d: DissectorBox);
}

impl<T> DissectorClone for T where T: 'static + Dissector + Clone {
    fn clone_box(&self) -> (d: DissectorBox) {
        DissectorBox::new(self.clone())
    }
}

/// A dissector as a profile holds it. Copies of the box share the one dissector.
pub struct DissectorBox {
    dissector: Arc<Option<Box<dyn Dissector>>>,
}

impl DissectorBox {
    /// The dissector in the box may make a worker for the phase named `typ`, where `made`
    /// holds, or none, where it does not.
    pub closed spec fn may_make(&self, typ: Seq<char>, made: bool) -> bool {
        match *self.dissector {
            Some(d) => d.may_make(typ, made),
            None => !made,
        }
    }

    /// A box with the dissector `diss`. What the dissector says of itself is known of a
    /// box that `from_box` has made of a boxed dissector.
    pub fn new<T: 'static + Dissector>(diss: T) -> (d: DissectorBox) {
        let dissector: Box<dyn Dissector> = Box::new(diss);
        DissectorBox::from_box(dissector)
    }

    /// A box with the dissector in `dissector`, of which it keeps what the dissector says
    /// of itself.
    pub fn from_box(dissector: Box<dyn Dissector>) -> (d: DissectorBox)
        ensures
            forall|typ: Seq<char>, made: bool|
                #[trigger] d.may_make(typ, made) == dissector.may_make(typ, made),
    {
        let dissector = Some(dissector);
        let dissector = Arc::new(dissector);
        DissectorBox { dissector }
    }

    /// A new worker of the dissector for the phase named `typ`, where it has one: what the
    /// dissector may make for the phase. The box stays as it is.
    pub fn new_worker(&mut self, typ: &str, ctx: &Context) -> (w: Option<WorkerBox>)
        ensures
            old(self).may_make(typ@, w is Some),
            *final(self) == *old(self),
    {
        match &*self.dissector {
            Some(dissector) => dissector.new_worker(typ, ctx),
            None => None,
        }
    }
}

impl Clone for DissectorBox {
    /// A box that shares the dissector.
    fn clone(&self) -> (d: DissectorBox)
        ensures
            forall|typ: Seq<char>, made: bool|
                #[trigger] d.may_make(typ, made) == self.may_make(typ, made),
    {
        let dissector = self.dissector.clone();
        DissectorBox { dissector }
    }
}

} // verus!
