//! Where frames come from and where they go: readers supply the first layer of each
//! frame, writers take the frames that were dissected.
use crate::context::Context;
use crate::error::{Error, ErrorKind};
use crate::frame::Frame;
use crate::layer::{models, Layer, LayerBuilder, LayerModel};
use vstd::prelude::*;

verus! {

/// Writes dissected frames, one root layer at a time.
pub trait WriterWorker: Send {
    /// `r` is an outcome that the worker may have for the writing of the frame numbered
    /// `index`, whose first layer is `root`. A worker says of itself which outcomes it
    /// has; one that says nothing may have any.
    open spec fn may_write(&self, index: u32, root: LayerModel, r: Result<(), Error>) -> bool {
        true
    }

    /// The end of the output may fail. A worker says of itself that it cannot; one that
    /// says nothing may fail.
    open spec fn end_may_fail(&self) -> bool {
        true
    }

    /// Writes the frame numbered `index`, whose first layer is `root`.
    fn write(&mut self, index: u32, root: &Layer) -> (r: Result<(), Error>)
        ensures
            old(self).may_write(index, root@, r),
    ;

    /// Ends the output. Nothing is written after it. A worker that has nothing to end
    /// succeeds.
    fn end(&mut self) -> (r: Result<(), Error>)
        ensures
            !old(self).end_may_fail() ==> r is Ok,
    {
        Ok(())
    }
}

/// Reads captured frames: each call gives the first layers of the frames read, and none
/// at the end of the input.
pub trait ReaderWorker: Send {
    /// `r` is an outcome that a reading of the worker may have. A worker says of itself
    /// which outcomes it has; one that says nothing may have any.
    open spec fn may_read(&self, r: Result<Vec<LayerBuilder>, Error>) -> bool {
        true
    }

    fn read(&mut self) -> (r: Result<Vec<LayerBuilder>, Error>)
        ensures
            old(self).may_read(r),
    ;
}

/// Makes writer workers.
pub trait Writer: Send {
    /// `r` is an outcome that the making of a worker for the settings `ctx` and the
    /// argument `args` may have. A writer says of itself which outcomes it has; one that
    /// says nothing may have any.
    open spec fn may_open(
        &self,
        ctx: Seq<(Seq<char>, Seq<char>)>,
        args: Seq<char>,
        r: Result<WriterWorkerBox, Error>,
    ) -> bool {
        true
    }

    /// `id` may be the name of the writer. A writer says of itself what it is named; one
    /// that says nothing may have any name.
    open spec fn named(&self, id: Seq<char>) -> bool {
        true
    }

    /// A worker for the settings of `ctx` and the argument `args`.
    fn new_worker(&self, ctx: &Context, args: &str) -> (r: Result<WriterWorkerBox, Error>)
        ensures
            self.may_open(ctx@, args@, r),
    ;

    /// The name of the writer.
    fn id(&self) -> (s: &str)
        ensures
            self.named(s@),
    ;
}

/// Makes reader workers.
pub trait Reader: Send {
    /// `r` is an outcome that the making of a worker for the settings `ctx` and the
    /// argument `arg` may have. A reader says of itself which outcomes it has; one that
    /// says nothing may have any.
    open spec fn may_open(
        &self,
        ctx: Seq<(Seq<char>, Seq<char>)>,
        arg: Seq<char>,
        r: Result<ReaderWorkerBox, Error>,
    ) -> bool {
        true
    }

    /// `id` may be the name of the reader. A reader says of itself what it is named; one
    /// that says nothing may have any name.
    open spec fn named(&self, id: Seq<char>) -> bool {
        true
    }

    /// A worker for the settings of `ctx` and the argument `arg`.
    fn new_worker(&self, ctx: &Context, arg: &str) -> (r: Result<ReaderWorkerBox, Error>)
        ensures
            self.may_open(ctx@, arg@, r),
    ;

    /// The name of the reader.
    fn id(&self) -> (s: &str)
        ensures
            self.named(s@),
    ;
}

/// Takes the frames of a session in their order; `None` says that no more will come.
pub trait Output: Send {
    fn write(&mut self, frames: Option<&[&Frame]>) -> (r: Result<(), Error>);
}

/// Gives the first layers of the frames that it has read.
pub trait Input: Send {
    fn read(&mut self) -> (r: Result<Vec<Layer>, Error>);
}

/// `r` is what comes out where the answer `answer` is handed on: a success as it is, an
/// error as a decode error with the same description.
pub open spec fn relayed<T>(answer: Result<T, Error>, r: Result<T, Error>) -> bool {
    match answer {
        Ok(v) => r == Ok::<T, Error>(v),
        Err(e) => r matches Err(f) && f.spec_kind() == ErrorKind::Decode && f.spec_description()
            == e.spec_description(),
    }
}

/// What comes out where an answer is handed on, as `relayed` says.
pub fn relay<T>(answer: Result<T, Error>) -> (r: Result<T, Error>)
    ensures
        relayed(answer, r),
{
    match answer {
        Ok(v) => Ok(v),
        Err(e) => Err(Error::new(e.description())),
    }
}

/// The layers that `builders` describe, in their order.
pub open spec fn built(builders: Seq<LayerBuilder>) -> Seq<LayerModel> {
    Seq::new(builders.len(), |i: int| builders[i].spec_build())
}

/// Builds every layer of `builders`, in order.
pub fn build_all(builders: Vec<LayerBuilder>) -> (layers: Vec<Layer>)
    ensures
        models(layers@) == built(builders@),
{
    let mut builders = builders;
    let ghost all = builders@;
    let mut reversed: Vec<Layer> = Vec::new();
    while builders.len() > 0
        invariant
            builders@.len() <= all.len(),
            builders@ == all.take(builders@.len() as int),
            reversed@.len() == all.len() - builders@.len(),
            forall|k: int|
                0 <= k < reversed@.len() ==> (#[trigger] reversed@[k])@ == all[all.len() - 1
                    - k].spec_build(),
        decreases builders@.len(),
    {
        let ghost n = builders@.len();
        let b = builders.pop().unwrap();
        assert(b == all[n - 1]);
        assert(builders@ =~= all.take(n - 1));
        reversed.push(b.build());
    }
    let mut layers: Vec<Layer> = Vec::new();
    while reversed.len() > 0
        invariant
            reversed@.len() + layers@.len() == all.len(),
            forall|k: int|
                0 <= k < reversed@.len() ==> (#[trigger] reversed@[k])@ == all[all.len() - 1
                    - k].spec_build(),
            forall|k: int| 0 <= k < layers@.len() ==> (#[trigger] layers@[k])@ == all[k].spec_build(),
        decreases reversed@.len(),
    {
        let l = reversed.pop().unwrap();
        layers.push(l);
    }
    assert(models(layers@) =~= built(all));
    layers
}

/// `r` is what a reading gives of the outcome `a`: the layers that were read, built in
/// their order, or the error handed on.
pub open spec fn read_out(a: Result<Vec<LayerBuilder>, Error>, r: Result<Vec<Layer>, Error>) -> bool {
    match a {
        Ok(builders) => r matches Ok(layers) && models(layers@) == built(builders@),
        Err(e) => r matches Err(f) && f.spec_kind() == ErrorKind::Decode && f.spec_description()
            == e.spec_description(),
    }
}

/// A writer worker as a session holds it.
pub struct WriterWorkerBox {
    worker: Option<Box<dyn WriterWorker>>,
}

impl WriterWorkerBox {
    /// `a` is an outcome that the worker in the box may have for the writing of the frame
    /// numbered `index`, whose first layer is `root`.
    pub closed spec fn may_write(&self, index: u32, root: LayerModel, a: Result<(), Error>) -> bool {
        match self.worker {
            Some(w) => w.may_write(index, root, a),
            None => a is Ok,
        }
    }

    /// `a` is an outcome that the worker in the box may have for the end of the output.
    pub closed spec fn may_end(&self, a: Result<(), Error>) -> bool {
        match self.worker {
            Some(w) => !w.end_may_fail() ==> a is Ok,
            None => a is Ok,
        }
    }

    /// The box with the worker `worker`: it writes and ends as the worker does.
    pub fn new(worker: Box<dyn WriterWorker>) -> (w: WriterWorkerBox)
        ensures
            forall|index: u32, root: LayerModel, a: Result<(), Error>|
                #[trigger] w.may_write(index, root, a) == worker.may_write(index, root, a),
            forall|a: Result<(), Error>|
                #[trigger] w.may_end(a) == (!worker.end_may_fail() ==> a is Ok),
    {
        let worker = Some(worker);
        WriterWorkerBox { worker }
    }

    /// Lets the worker write one frame: the outcome is an outcome that the worker may
    /// have, handed on as `relayed` says. An error of the worker comes out as a decode
    /// error.
    pub fn write(&mut self, index: u32, root: &Layer) -> (r: Result<(), Error>)
        ensures
            exists|a: Result<(), Error>| #[trigger]
                old(self).may_write(index, root@, a) && relayed(a, r),
            r matches Err(e) ==> e.spec_kind() == ErrorKind::Decode,
    {
        match &mut self.worker {
            Some(worker) => {
                let a = worker.write(index, root);
                let ghost answer = a;
                let r = relay(a);
                assert(old(self).may_write(index, root@, answer) && relayed(answer, r));
                r
            },
            None => {
                assert(old(self).may_write(index, root@, Ok::<(), Error>(())) && relayed(
                    Ok::<(), Error>(()),
                    Ok::<(), Error>(()),
                ));
                Ok(())
            },
        }
    }

    /// Lets the worker end the output: the outcome is an outcome that the worker may
    /// have, handed on as `relayed` says. An error of the worker comes out as a decode
    /// error.
    pub fn end(&mut self) -> (r: Result<(), Error>)
        ensures
            exists|a: Result<(), Error>| #[trigger] old(self).may_end(a) && relayed(a, r),
            r matches Err(e) ==> e.spec_kind() == ErrorKind::Decode,
    {
        match &mut self.worker {
            Some(worker) => {
                let a = worker.end();
                let ghost answer = a;
                let r = relay(a);
                assert(old(self).may_end(answer) && relayed(answer, r));
                r
            },
            None => {
                assert(old(self).may_end(Ok::<(), Error>(())) && relayed(
                    Ok::<(), Error>(()),
                    Ok::<(), Error>(()),
                ));
                Ok(())
            },
        }
    }
}

/// A reader worker as a session holds it.
pub struct ReaderWorkerBox {
    worker: Option<Box<dyn ReaderWorker>>,
}

impl ReaderWorkerBox {
    /// `a` is an outcome that a reading of the worker in the box may have.
    pub closed spec fn may_read(&self, a: Result<Vec<LayerBuilder>, Error>) -> bool {
        match self.worker {
            Some(w) => w.may_read(a),
            None => a matches Ok(builders) && builders@.len() == 0,
        }
    }

    /// The box with the worker `worker`: it reads as the worker does.
    pub fn new(worker: Box<dyn ReaderWorker>) -> (w: ReaderWorkerBox)
        ensures
            forall|a: Result<Vec<LayerBuilder>, Error>|
                #[trigger] w.may_read(a) == worker.may_read(a),
    {
        let worker = Some(worker);
        ReaderWorkerBox { worker }
    }

    /// Lets the worker read, and builds the layers that it read: the outcome is what
    /// `read_out` says of an outcome that the worker may have. An error of the worker
    /// comes out as a decode error.
    pub fn read(&mut self) -> (r: Result<Vec<Layer>, Error>)
        ensures
            exists|a: Result<Vec<LayerBuilder>, Error>| #[trigger]
                old(self).may_read(a) && read_out(a, r),
            r matches Err(e) ==> e.spec_kind() == ErrorKind::Decode,
    {
        let a = match &mut self.worker {
            Some(worker) => worker.read(),
            None => Ok(Vec::new()),
        };
        let ghost answer = a;
        assert(old(self).may_read(answer));
        let r = match relay(a) {
            Ok(builders) => Ok(build_all(builders)),
            Err(e) => Err(e),
        };
        assert(old(self).may_read(answer) && read_out(answer, r));
        r
    }
}

/// A writer as a profile holds it.
pub struct WriterBox {
    writer: Option<Box<dyn Writer>>,
}

impl WriterBox {
    /// `a` is an outcome that the making of a worker by the writer in the box may have.
    pub closed spec fn may_open(
        &self,
        ctx: Seq<(Seq<char>, Seq<char>)>,
        args: Seq<char>,
        a: Result<WriterWorkerBox, Error>,
    ) -> bool {
        match self.writer {
            Some(w) => w.may_open(ctx, args, a),
            None => a is Err,
        }
    }

    /// `id` may be the name of the writer in the box.
    pub closed spec fn named(&self, id: Seq<char>) -> bool {
        match self.writer {
            Some(w) => w.named(id),
            None => id.len() == 0,
        }
    }

    /// A box with the writer `writer`. What the writer says of itself is known of a box
    /// that `from_box` has made of a boxed writer.
    pub fn new<T: 'static + Writer>(writer: T) -> (w: WriterBox) {
        let writer: Box<dyn Writer> = Box::new(writer);
        WriterBox::from_box(writer)
    }

    /// A box with the writer in `writer`, of which it keeps what the writer says of
    /// itself.
    pub fn from_box(writer: Box<dyn Writer>) -> (w: WriterBox)
        ensures
            forall|id: Seq<char>| #[trigger] w.named(id) == writer.named(id),
            forall|ctx: Seq<(Seq<char>, Seq<char>)>, args: Seq<char>, a: Result<WriterWorkerBox, Error>|
                #[trigger] w.may_open(ctx, args, a) == writer.may_open(ctx, args, a),
    {
        let writer = Some(writer);
        WriterBox { writer }
    }

    /// The name of the writer: a name that the writer may have.
    pub fn id(&self) -> (s: String)
        ensures
            self.named(s@),
    {
        match &self.writer {
            Some(writer) => writer.id().to_owned(),
            None => String::new(),
        }
    }

    /// A new worker of the writer: the outcome is an outcome that the writer may have,
    /// handed on as `relayed` says. An error of the writer comes out as a decode error.
    pub fn new_worker(&self, ctx: &Context, args: &str) -> (r: Result<WriterWorkerBox, Error>)
        ensures
            exists|a: Result<WriterWorkerBox, Error>| #[trigger]
                self.may_open(ctx@, args@, a) && relayed(a, r),
            r matches Err(e) ==> e.spec_kind() == ErrorKind::Decode,
    {
        let a = match &self.writer {
            Some(writer) => writer.new_worker(ctx, args),
            None => Err(Error::new("no writer")),
        };
        let ghost answer = a;
        let r = relay(a);
        assert(self.may_open(ctx@, args@, answer) && relayed(answer, r));
        r
    }
}

/// A reader as a profile holds it.
pub struct ReaderBox {
    reader: Option<Box<dyn Reader>>,
}

impl ReaderBox {
    /// `a` is an outcome that the making of a worker by the reader in the box may have.
    pub closed spec fn may_open(
        &self,
        ctx: Seq<(Seq<char>, Seq<char>)>,
        arg: Seq<char>,
        a: Result<ReaderWorkerBox, Error>,
    ) -> bool {
        match self.reader {
            Some(r) => r.may_open(ctx, arg, a),
            None => a is Err,
        }
    }

    /// `id` may be the name of the reader in the box.
    pub closed spec fn named(&self, id: Seq<char>) -> bool {
        match self.reader {
            Some(r) => r.named(id),
            None => id.len() == 0,
        }
    }

    /// A box with the reader `reader`. What the reader says of itself is known of a box
    /// that `from_box` has made of a boxed reader.
    pub fn new<T: 'static + Reader>(reader: T) -> (r: ReaderBox) {
        let reader: Box<dyn Reader> = Box::new(reader);
        ReaderBox::from_box(reader)
    }

    /// A box with the reader in `reader`, of which it keeps what the reader says of
    /// itself.
    pub fn from_box(reader: Box<dyn Reader>) -> (r: ReaderBox)
        ensures
            forall|id: Seq<char>| #[trigger] r.named(id) == reader.named(id),
            forall|ctx: Seq<(Seq<char>, Seq<char>)>, arg: Seq<char>, a: Result<ReaderWorkerBox, Error>|
                #[trigger] r.may_open(ctx, arg, a) == reader.may_open(ctx, arg, a),
    {
        let reader = Some(reader);
        ReaderBox { reader }
    }

    /// The name of the reader: a name that the reader may have.
    pub fn id(&self) -> (s: String)
        ensures
            self.named(s@),
    {
        match &self.reader {
            Some(reader) => reader.id().to_owned(),
            None => String::new(),
        }
    }

    /// A new worker of the reader: the outcome is an outcome that the reader may have,
    /// handed on as `relayed` says. An error of the reader comes out as a decode error.
    pub fn new_worker(&self, ctx: &Context, args: &str) -> (r: Result<ReaderWorkerBox, Error>)
        ensures
            exists|a: Result<ReaderWorkerBox, Error>| #[trigger]
                self.may_open(ctx@, args@, a) && relayed(a, r),
            r matches Err(e) ==> e.spec_kind() == ErrorKind::Decode,
    {
        let a = match &self.reader {
            Some(reader) => reader.new_worker(ctx, args),
            None => Err(Error::new("no reader")),
        };
        let ghost answer = a;
        let r = relay(a);
        assert(self.may_open(ctx@, args@, answer) && relayed(answer, r));
        r
    }
}

} // verus!
