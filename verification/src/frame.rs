use crate::attr::Attr;
use crate::layer::{all_in_place, models, stack_attr, Layer, LayerModel};
use crate::slice::Slice;
use crate::token::Token;
use crate::tree::{first_child, is_child, is_forest, lemma_parent, lemma_total_step, parent_of, total};
use vstd::prelude::*;

verus! {

/// What a frame is: its number, the bytes that were captured, its layers level by level,
/// and for each layer that was dissected the number of its children.
pub struct FrameModel {
    pub index: u32,
    pub data: Slice,
    pub layers: Seq<LayerModel>,
    pub tree_indices: Seq<u8>,
}

/// The numbers of `counts` as they stand.
pub open spec fn widen(counts: Seq<u8>) -> Seq<usize> {
    Seq::new(counts.len(), |i: int| counts[i] as usize)
}

impl FrameModel {
    /// The numbers of children, one for each layer that has one.
    pub open spec fn shape(&self) -> Seq<usize> {
        widen(self.tree_indices)
    }

    /// The number of layers that are no layer's child.
    pub open spec fn roots(&self) -> nat {
        (self.layers.len() - total(self.shape())) as nat
    }

    /// Every layer is laid over the captured bytes: the data of every layer and of every
    /// payload is a window on a buffer of these bytes.
    pub open spec fn in_place(&self) -> bool {
        all_in_place(self.layers, self.data.buffer())
    }

    /// Every layer has its number of children, and the numbers describe a forest of these
    /// layers. A frame is so after it was dissected once.
    pub open spec fn well_shaped(&self) -> bool {
        &&& self.tree_indices.len() == self.layers.len()
        &&& total(self.shape()) <= self.layers.len()
        &&& is_forest(self.roots(), self.shape())
    }
}

/// One captured unit: its bytes, and what was decoded from them.
#[derive(Debug)]
pub struct Frame {
    index: u32,
    data: Slice,
    layers: Vec<Layer>,
    tree_indices: Vec<u8>,
}

impl View for Frame {
    type V = FrameModel;

    closed spec fn view(&self) -> FrameModel {
        FrameModel {
            index: self.index,
            data: self.data,
            layers: models(self.layers@),
            tree_indices: self.tree_indices@,
        }
    }
}

/// The sum of the first `upto` of `counts`, where it is at most `limit`.
fn sum_to(counts: &[u8], upto: usize, limit: usize) -> (r: Option<usize>)
    requires
        upto <= counts@.len(),
    ensures
        r == (if total(widen(counts@).take(upto as int)) <= limit {
            Some(total(widen(counts@).take(upto as int)) as usize)
        } else {
            None
        }),
{
    let ghost shape = widen(counts@);
    let mut sum: usize = 0;
    let mut i: usize = 0;
    assert(shape.take(0) =~= Seq::<usize>::empty());
    while i < upto
        invariant
            i <= upto <= counts@.len(),
            shape == widen(counts@),
            sum == total(shape.take(i as int)),
            sum <= limit,
        decreases upto - i,
    {
        proof {
            lemma_total_step(shape, i as int);
            crate::tree::lemma_first_child_monotone(0, shape, i + 1, upto as int);
        }
        let c = counts[i] as usize;
        if c > limit - sum {
            return None;
        }
        sum = sum + c;
        i = i + 1;
    }
    Some(sum)
}

impl Frame {
    /// The frame numbered `index` whose capture `root` covers, not yet dissected.
    pub fn new(index: u32, root: Layer) -> (f: Frame)
        ensures
            f@ == (FrameModel {
                index,
                data: root@.data,
                layers: seq![root@],
                tree_indices: Seq::<u8>::empty(),
            }),
    {
        let data = root.data();
        let mut layers: Vec<Layer> = Vec::new();
        layers.push(root);
        let f = Frame { index, data, layers, tree_indices: Vec::new() };
        assert(f@.layers =~= seq![root@]);
        f
    }

    pub fn index(&self) -> (n: u32)
        ensures
            n == self@.index,
    {
        self.index
    }

    /// The bytes that were captured.
    pub fn data(&self) -> (s: Slice)
        ensures
            s == self@.data,
    {
        self.data
    }

    /// The layers, level by level.
    pub fn layers(&self) -> (r: &[Layer])
        ensures
            models(r@) == self@.layers,
    {
        self.layers.as_slice()
    }

    /// The numbers of children, in the order of the layers.
    pub fn tree_indices(&self) -> (r: &[u8])
        ensures
            r@ == self@.tree_indices,
    {
        self.tree_indices.as_slice()
    }

    /// Takes the layers out of the frame.
    pub fn take_layers(&mut self) -> (r: Vec<Layer>)
        ensures
            models(r@) == old(self)@.layers,
            final(self)@ == (FrameModel { layers: Seq::<LayerModel>::empty(), ..old(self)@ }),
    {
        let mut r: Vec<Layer> = Vec::new();
        r.append(&mut self.layers);
        assert(models(self.layers@) =~= Seq::<LayerModel>::empty());
        assert(models(r@) =~= old(self)@.layers);
        r
    }

    /// Moves `layers` to the end of the frame's layers.
    pub fn append_layers(&mut self, layers: &mut Vec<Layer>)
        ensures
            final(layers)@.len() == 0,
            final(self)@ == (FrameModel {
                layers: old(self)@.layers + models(old(layers)@),
                ..old(self)@
            }),
    {
        self.layers.append(layers);
        assert(models(self.layers@) =~= old(self)@.layers + models(old(layers)@));
    }

    /// Moves `tree_indices` to the end of the frame's numbers of children.
    pub fn append_tree_indices(&mut self, tree_indices: &mut Vec<u8>)
        ensures
            final(tree_indices)@.len() == 0,
            final(self)@ == (FrameModel {
                tree_indices: old(self)@.tree_indices + old(tree_indices)@,
                ..old(self)@
            }),
    {
        self.tree_indices.append(tree_indices);
    }

    /// The attribute that the frame shows under `id`: that of the last layer which shows
    /// one.
    pub fn attr(&self, id: Token) -> (r: Option<&Attr>)
        ensures
            match r {
                Some(a) => stack_attr(self@.layers, id) == Some(*a),
                None => stack_attr(self@.layers, id) is None,
            },
    {
        let ghost all = self@.layers;
        let mut i: usize = self.layers.len();
        assert(all.take(i as int) =~= all);
        while i > 0
            invariant
                i <= self.layers@.len(),
                all == models(self.layers@),
                stack_attr(all, id) == stack_attr(all.take(i as int), id),
            decreases i,
        {
            i = i - 1;
            assert(all.take(i + 1).last() == self.layers@[i as int]@);
            assert(all.take(i + 1).drop_last() =~= all.take(i as int));
            if let Some(a) = self.layers[i].attr(id) {
                return Some(a);
            }
        }
        None
    }

    /// Whether every layer is known to look at the buffer of the captured bytes: then no
    /// layer holds a copy of them. A frame whose layers were all made by narrowing the
    /// capture or one another's data and payloads is so, and so is a frame without layers.
    pub fn zero_copy(&self) -> (b: bool)
        ensures
            b ==> forall|i: int|
                0 <= i < self@.layers.len() ==> (#[trigger] self@.layers[i]).data.shares_buffer(
                    self@.data,
                ),
            self@.layers.len() == 0 ==> b,
    {
        let mut i: usize = 0;
        while i < self.layers.len()
            invariant
                i <= self.layers@.len(),
                forall|j: int|
                    0 <= j < i ==> (#[trigger] self@.layers[j]).data.shares_buffer(self@.data),
            decreases self.layers@.len() - i,
        {
            let data = self.layers[i].data();
            assert(self@.layers[i as int] == self.layers@[i as int]@);
            if !data.shares(&self.data) {
                return false;
            }
            i = i + 1;
        }
        true
    }

    /// The number of layers that are no layer's child; absent where not every layer has
    /// its number of children or the numbers name more children than there are layers.
    pub fn roots(&self) -> (r: Option<usize>)
        ensures
            r is Some <==> self@.tree_indices.len() == self@.layers.len() && total(self@.shape())
                <= self@.layers.len(),
            r matches Some(n) ==> n == self@.roots(),
    {
        let n = self.layers.len();
        if self.tree_indices.len() != n {
            return None;
        }
        assert(self@.shape().take(n as int) =~= self@.shape());
        match sum_to(self.tree_indices.as_slice(), n, n) {
            Some(sum) => Some(n - sum),
            None => None,
        }
    }

    /// Where the children of layer `i` stand among the layers: from the first number up
    /// to the second. Absent where the frame has no layer `i` or no number of roots.
    pub fn children(&self, i: usize) -> (r: Option<(usize, usize)>)
        ensures
            r is Some <==> i < self@.layers.len() && self@.tree_indices.len()
                == self@.layers.len() && total(self@.shape()) <= self@.layers.len(),
            r matches Some((from, to)) ==> {
                &&& from == first_child(self@.roots(), self@.shape(), i as int)
                &&& to == from + self@.shape()[i as int]
                &&& forall|j: int|
                    is_child(self@.roots(), self@.shape(), i as int, j) <==> from <= j < to
            },
    {
        let n = self.layers.len();
        match self.roots() {
            None => None,
            Some(roots) => {
                if i >= n {
                    return None;
                }
                proof {
                    crate::tree::lemma_first_child_monotone(0, self@.shape(), i as int, n as int);
                    assert(self@.shape().take(n as int) =~= self@.shape());
                }
                match sum_to(self.tree_indices.as_slice(), i, n) {
                    None => None,
                    Some(before) => {
                        let from = roots + before;
                        let to = from + self.tree_indices[i] as usize;
                        Some((from, to))
                    },
                }
            },
        }
    }

    /// The layer whose child layer `j` is, found from the numbers of children. Absent for
    /// a root, for a `j` that the frame does not have, and where the frame has no number
    /// of roots. In a frame that holds the shape of a forest the parent stands before
    /// its child.
    pub fn parent(&self, j: usize) -> (r: Option<usize>)
        ensures
            r is Some <==> self@.tree_indices.len() == self@.layers.len() && total(self@.shape())
                <= self@.layers.len() && self@.roots() <= j < self@.layers.len(),
            r matches Some(p) ==> {
                &&& p == parent_of(self@.roots(), self@.shape(), j as int)
                &&& is_child(self@.roots(), self@.shape(), p as int, j as int)
                &&& self@.well_shaped() ==> p < j
            },
    {
        let n = self.layers.len();
        let roots = match self.roots() {
            Some(roots) => roots,
            None => {
                return None;
            },
        };
        if j < roots || j >= n {
            return None;
        }
        let ghost shape = self@.shape();
        proof {
            assert(shape.take(0) =~= Seq::<usize>::empty());
            assert(shape.take(n as int) =~= shape);
            if self@.well_shaped() {
                lemma_parent(roots as nat, shape, j as int);
            }
        }
        let mut i: usize = 0;
        let mut from: usize = roots;
        while i < n
            invariant
                i <= n,
                n == shape.len(),
                n == self@.layers.len(),
                roots == self@.roots(),
                roots + total(shape) == n,
                shape == self@.shape(),
                shape == widen(self.tree_indices@),
                from == first_child(roots as nat, shape, i as int),
                from <= j,
                roots <= j < n,
                parent_of(roots as nat, shape, j as int) == crate::tree::parent_from(
                    roots as nat,
                    shape,
                    j as int,
                    i as int,
                ),
                self@.well_shaped() ==> parent_of(roots as nat, shape, j as int) < j,
            decreases n - i,
        {
            proof {
                lemma_total_step(shape, i as int);
                crate::tree::lemma_first_child_monotone(roots as nat, shape, i + 1, n as int);
                assert(shape.take(n as int) =~= shape);
            }
            let to = from + self.tree_indices[i] as usize;
            if j < to {
                return Some(i);
            }
            from = to;
            i = i + 1;
        }
        proof {
            assert(shape.take(n as int) =~= shape);
        }
        None
    }
}

} // verus!
