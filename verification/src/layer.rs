use crate::attr::Attr;
use crate::slice::Slice;
use crate::token::Token;
use std::sync::Arc;
use vstd::prelude::*;
use vstd::std_specs::convert::FromSpecImpl;

verus! {

/// A stretch of a layer's data that a later worker may decode: the bytes, the name of the
/// slot, and the name of the kind of data, by which workers choose what to claim.
#[derive(Clone, Copy, Debug)]
pub struct Payload {
    pub data: Slice,
    pub id: Token,
    pub typ: Token,
}

impl Payload {
    /// A payload of no named kind.
    pub fn new(data: Slice, id: Token) -> (p: Payload)
        ensures
            p == (Payload { data, id, typ: Token { id: 0 } }),
    {
        Payload::with_typ(data, id, Token::null())
    }

    /// A payload of the kind `typ`.
    pub fn with_typ(data: Slice, id: Token, typ: Token) -> (p: Payload)
        ensures
            p == (Payload { data, id, typ }),
    {
        Payload { data, id, typ }
    }

    pub fn id(&self) -> (t: Token)
        ensures
            t == self.id,
    {
        self.id
    }

    pub fn typ(&self) -> (t: Token)
        ensures
            t == self.typ,
    {
        self.typ
    }

    pub fn data(&self) -> (s: Slice)
        ensures
            s == self.data,
    {
        self.data
    }
}

/// Another name for an attribute: a lookup of `id` is a lookup of `target`.
#[derive(Clone, Copy, Debug)]
pub struct Alias {
    pub id: Token,
    pub target: Token,
}

/// What a layer class is: its name, its aliases in the order given, and the attributes
/// that every layer of the class has.
pub struct LayerClassModel {
    pub id: Token,
    pub aliases: Seq<Alias>,
    pub headers: Seq<Attr>,
}

/// What a layer is: its class, the bytes it covers, and the attributes and payloads that
/// were added to it, in the order of their adding.
pub struct LayerModel {
    pub class: LayerClassModel,
    pub data: Slice,
    pub attrs: Seq<Attr>,
    pub payloads: Seq<Payload>,
}

/// The name that a lookup of `id` goes to: the target of the first alias named `id`, or
/// `id` itself where there is none.
pub open spec fn resolve(aliases: Seq<Alias>, id: Token) -> Token
    decreases aliases.len(),
{
    if aliases.len() == 0 {
        id
    } else if aliases[0].id == id {
        aliases[0].target
    } else {
        resolve(aliases.skip(1), id)
    }
}

/// The first attribute named `id`.
pub open spec fn find_attr(attrs: Seq<Attr>, id: Token) -> Option<Attr>
    decreases attrs.len(),
{
    if attrs.len() == 0 {
        None
    } else if attrs[0].class.id == id {
        Some(attrs[0])
    } else {
        find_attr(attrs.skip(1), id)
    }
}

/// The attribute that a layer shows under `id`: aliases are resolved first, then the
/// attributes that were added are searched, then those of the class.
pub open spec fn lookup(layer: LayerModel, id: Token) -> Option<Attr> {
    find_attr(layer.attrs + layer.class.headers, resolve(layer.class.aliases, id))
}

/// The attribute that a stack of layers shows under `id`: that of the topmost layer which
/// shows one.
pub open spec fn stack_attr(layers: Seq<LayerModel>, id: Token) -> Option<Attr>
    decreases layers.len(),
{
    if layers.len() == 0 {
        None
    } else {
        match lookup(layers.last(), id) {
            Some(a) => Some(a),
            None => stack_attr(layers.drop_last(), id),
        }
    }
}

/// The place of the lowest layer of the class named `id`, or the height of the stack.
pub open spec fn stack_layer(layers: Seq<LayerModel>, id: Token) -> nat
    decreases layers.len(),
{
    if layers.len() == 0 || layers[0].class.id == id {
        0
    } else {
        1 + stack_layer(layers.skip(1), id)
    }
}

/// `after` is the layer `before` with, at most, more attributes and payloads behind
/// those it had.
pub open spec fn grew(after: LayerModel, before: LayerModel) -> bool {
    &&& after.class == before.class
    &&& after.data == before.data
    &&& before.attrs.is_prefix_of(after.attrs)
    &&& before.payloads.is_prefix_of(after.payloads)
}

/// The layer is laid over the bytes `buffer`: its data is a window on a buffer of these
/// bytes, and so is the data of each of its payloads. The bytes that the layer shows are
/// bytes of `buffer` at their place, not bytes taken out of it.
pub open spec fn in_place(layer: LayerModel, buffer: Seq<u8>) -> bool {
    &&& layer.data.wf()
    &&& layer.data.buffer() == buffer
    &&& forall|i: int|
        0 <= i < layer.payloads.len() ==> (#[trigger] layer.payloads[i]).data.wf()
            && layer.payloads[i].data.buffer() == buffer
}

/// Each of `layers` is laid over the bytes `buffer`.
pub open spec fn all_in_place(layers: Seq<LayerModel>, buffer: Seq<u8>) -> bool {
    forall|i: int| 0 <= i < layers.len() ==> in_place(#[trigger] layers[i], buffer)
}

/// Each of `layers` is laid over the bytes of the buffer of the first of them.
pub open spec fn uniform(layers: Seq<LayerModel>) -> bool {
    layers.len() > 0 ==> all_in_place(layers, layers[0].data.buffer())
}

/// What each of `layers` is.
pub open spec fn models(layers: Seq<Layer>) -> Seq<LayerModel> {
    Seq::new(layers.len(), |i: int| layers[i]@)
}

/// A search through two runs of attributes finds what the first run has, else what the
/// second has.
pub proof fn lemma_find_attr_concat(a: Seq<Attr>, b: Seq<Attr>, id: Token)
    ensures
        find_attr(a + b, id) == (match find_attr(a, id) {
            Some(x) => Some(x),
            None => find_attr(b, id),
        }),
    decreases a.len(),
{
    if a.len() == 0 {
        assert(a + b =~= b);
    } else {
        assert((a + b)[0] == a[0]);
        assert((a + b).skip(1) =~= a.skip(1) + b);
        lemma_find_attr_concat(a.skip(1), b, id);
    }
}

/// A name that no alias has resolves to itself.
pub proof fn lemma_resolve_plain(aliases: Seq<Alias>, id: Token)
    requires
        forall|j: int| 0 <= j < aliases.len() ==> (#[trigger] aliases[j]).id != id,
    ensures
        resolve(aliases, id) == id,
    decreases aliases.len(),
{
    if aliases.len() > 0 {
        assert(aliases[0].id != id);
        assert forall|j: int| 0 <= j < aliases.skip(1).len() implies (#[trigger] aliases.skip(
            1,
        )[j]).id != id by {
            assert(aliases.skip(1)[j] == aliases[j + 1]);
        }
        lemma_resolve_plain(aliases.skip(1), id);
    }
}

/// The name of an alias resolves to its target, where no earlier alias has that name.
pub proof fn lemma_resolve_alias(aliases: Seq<Alias>, k: int)
    requires
        0 <= k < aliases.len(),
        forall|j: int| 0 <= j < k ==> (#[trigger] aliases[j]).id != aliases[k].id,
    ensures
        resolve(aliases, aliases[k].id) == aliases[k].target,
    decreases k,
{
    if k > 0 {
        assert(aliases[0].id != aliases[k].id);
        let rest = aliases.skip(1);
        assert(rest[k - 1] == aliases[k]);
        assert forall|j: int| 0 <= j < k - 1 implies (#[trigger] rest[j]).id != rest[k - 1].id by {
            assert(rest[j] == aliases[j + 1]);
        }
        lemma_resolve_alias(rest, k - 1);
    }
}

/// A lookup by the name of an alias gives what a lookup by its target gives. This holds
/// of an alias that is the first of its name and whose target is not itself the name of
/// an alias: a lookup follows one alias, never a chain.
pub proof fn lemma_alias_lookup(layer: LayerModel, k: int)
    requires
        0 <= k < layer.class.aliases.len(),
        forall|j: int|
            0 <= j < k ==> (#[trigger] layer.class.aliases[j]).id != layer.class.aliases[k].id,
        forall|j: int|
            0 <= j < layer.class.aliases.len() ==> (#[trigger] layer.class.aliases[j]).id
                != layer.class.aliases[k].target,
    ensures
        lookup(layer, layer.class.aliases[k].id) == lookup(layer, layer.class.aliases[k].target),
{
    lemma_resolve_alias(layer.class.aliases, k);
    lemma_resolve_plain(layer.class.aliases, layer.class.aliases[k].target);
}

/// What the layers of one kind have in common.
#[derive(Clone, Debug)]
pub struct LayerClass {
    id: Token,
    aliases: Vec<Alias>,
    headers: Vec<Attr>,
}

/// Collects the parts of a `LayerClass`.
pub struct LayerClassBuilder {
    id: Token,
    aliases: Vec<Alias>,
    headers: Vec<Attr>,
}

/// The attributes and payloads that were added to one layer.
#[derive(Clone, Debug)]
struct LayerData {
    attrs: Vec<Attr>,
    payloads: Vec<Payload>,
}

impl LayerClassBuilder {
    /// The class that `build` would give.
    pub closed spec fn spec_build(&self) -> LayerClassModel {
        LayerClassModel { id: self.id, aliases: self.aliases@, headers: self.headers@ }
    }

    /// Adds an alias after those already given.
    pub fn alias(self, id: Token, target: Token) -> (b: LayerClassBuilder)
        ensures
            b.spec_build() == (LayerClassModel {
                aliases: self.spec_build().aliases.push(Alias { id, target }),
                ..self.spec_build()
            }),
    {
        let mut b = self;
        b.aliases.push(Alias { id, target });
        b
    }

    /// Adds an attribute that every layer of the class has.
    pub fn header(self, attr: Attr) -> (b: LayerClassBuilder)
        ensures
            b.spec_build() == (LayerClassModel {
                headers: self.spec_build().headers.push(attr),
                ..self.spec_build()
            }),
    {
        let mut b = self;
        b.headers.push(attr);
        b
    }

    /// Adds attributes that every layer of the class has, in their order.
    pub fn headers(self, attrs: Vec<Attr>) -> (b: LayerClassBuilder)
        ensures
            b.spec_build() == (LayerClassModel {
                headers: self.spec_build().headers + attrs@,
                ..self.spec_build()
            }),
    {
        let mut b = self;
        let mut attrs = attrs;
        b.headers.append(&mut attrs);
        b
    }

    pub fn build(self) -> (c: LayerClass)
        ensures
            c@ == self.spec_build(),
    {
        LayerClass { id: self.id, aliases: self.aliases, headers: self.headers }
    }
}

impl View for LayerClass {
    type V = LayerClassModel;

    closed spec fn view(&self) -> LayerClassModel {
        LayerClassModel { id: self.id, aliases: self.aliases@, headers: self.headers@ }
    }
}

impl LayerClass {
    /// Begins a class named `id` with no alias and no attribute.
    pub fn builder(id: Token) -> (b: LayerClassBuilder)
        ensures
            b.spec_build() == (LayerClassModel {
                id,
                aliases: Seq::<Alias>::empty(),
                headers: Seq::<Attr>::empty(),
            }),
    {
        LayerClassBuilder { id, aliases: Vec::new(), headers: Vec::new() }
    }

    pub fn id(&self) -> (t: Token)
        ensures
            t == self@.id,
    {
        self.id
    }

    /// The name that a lookup of `id` goes to.
    pub fn resolve(&self, id: Token) -> (t: Token)
        ensures
            t == resolve(self@.aliases, id),
    {
        let mut i: usize = 0;
        assert(self.aliases@.skip(0) =~= self.aliases@);
        while i < self.aliases.len()
            invariant
                i <= self.aliases@.len(),
                resolve(self.aliases@, id) == resolve(self.aliases@.skip(i as int), id),
            decreases self.aliases@.len() - i,
        {
            if self.aliases[i].id == id {
                return self.aliases[i].target;
            }
            assert(self.aliases@.skip(i as int).skip(1) =~= self.aliases@.skip(i + 1));
            i = i + 1;
        }
        id
    }

    pub fn headers(&self) -> (r: &[Attr])
        ensures
            r@ == self@.headers,
    {
        self.headers.as_slice()
    }

    fn attrs<'a>(&self, layer: &'a LayerData) -> (r: &'a [Attr])
        ensures
            r@ == layer.attrs@,
    {
        layer.attrs.as_slice()
    }

    fn payloads<'a>(&self, layer: &'a LayerData) -> (r: &'a [Payload])
        ensures
            r@ == layer.payloads@,
    {
        layer.payloads.as_slice()
    }

    fn add_attr(&self, layer: &mut LayerData, attr: Attr)
        ensures
            final(layer).attrs@ == old(layer).attrs@.push(attr),
            final(layer).payloads@ == old(layer).payloads@,
    {
        layer.attrs.push(attr);
    }

    fn add_payload(&self, layer: &mut LayerData, payload: Payload)
        ensures
            final(layer).payloads@ == old(layer).payloads@.push(payload),
            final(layer).attrs@ == old(layer).attrs@,
    {
        layer.payloads.push(payload);
    }
}

/// The first of `attrs` that is named `id`.
fn find<'a>(attrs: &'a [Attr], id: Token) -> (r: Option<&'a Attr>)
    ensures
        match r {
            Some(a) => find_attr(attrs@, id) == Some(*a),
            None => find_attr(attrs@, id) is None,
        },
{
    let mut i: usize = 0;
    assert(attrs@.skip(0) =~= attrs@);
    while i < attrs.len()
        invariant
            i <= attrs@.len(),
            find_attr(attrs@, id) == find_attr(attrs@.skip(i as int), id),
        decreases attrs@.len() - i,
    {
        if attrs[i].class.id == id {
            return Some(&attrs[i]);
        }
        assert(attrs@.skip(i as int).skip(1) =~= attrs@.skip(i + 1));
        i = i + 1;
    }
    None
}

/// One decoded unit of a protocol.
#[derive(Clone, Debug)]
pub struct Layer {
    class: Arc<LayerClass>,
    data: Slice,
    root: LayerData,
}

/// A layer in the making.
pub struct LayerBuilder {
    class: Arc<LayerClass>,
    data: Slice,
    attrs: Vec<Attr>,
    payloads: Vec<Payload>,
}

impl View for Layer {
    type V = LayerModel;

    closed spec fn view(&self) -> LayerModel {
        LayerModel {
            class: self.class@,
            data: self.data,
            attrs: self.root.attrs@,
            payloads: self.root.payloads@,
        }
    }
}

impl Layer {
    /// Begins a layer of `class` on `data`, with nothing added.
    pub fn new(class: Arc<LayerClass>, data: Slice) -> (b: LayerBuilder)
        ensures
            b.spec_build() == (LayerModel {
                class: class@,
                data,
                attrs: Seq::<Attr>::empty(),
                payloads: Seq::<Payload>::empty(),
            }),
    {
        LayerBuilder { class, data, attrs: Vec::new(), payloads: Vec::new() }
    }

    /// The name of the layer's class.
    pub fn id(&self) -> (t: Token)
        ensures
            t == self@.class.id,
    {
        self.class.id()
    }

    /// The bytes that the layer covers.
    pub fn data(&self) -> (s: Slice)
        ensures
            s == self@.data,
    {
        self.data
    }

    /// The attributes that every layer of the class has.
    pub fn headers(&self) -> (r: &[Attr])
        ensures
            r@ == self@.class.headers,
    {
        self.class.headers()
    }

    /// The attributes that were added to this layer.
    pub fn attrs(&self) -> (r: &[Attr])
        ensures
            r@ == self@.attrs,
    {
        self.class.attrs(&self.root)
    }

    /// The attribute that the layer shows under `id`.
    pub fn attr(&self, id: Token) -> (r: Option<&Attr>)
        ensures
            match r {
                Some(a) => lookup(self@, id) == Some(*a),
                None => lookup(self@, id) is None,
            },
    {
        let id = self.class.resolve(id);
        proof {
            lemma_find_attr_concat(self@.attrs, self@.class.headers, id);
        }
        match find(self.attrs(), id) {
            Some(a) => Some(a),
            None => find(self.headers(), id),
        }
    }

    /// Adds an attribute after those already added.
    pub fn add_attr(&mut self, attr: Attr)
        ensures
            final(self)@ == (LayerModel { attrs: old(self)@.attrs.push(attr), ..old(self)@ }),
    {
        self.class.add_attr(&mut self.root, attr);
    }

    /// The payloads that were added to this layer.
    pub fn payloads(&self) -> (r: &[Payload])
        ensures
            r@ == self@.payloads,
    {
        self.class.payloads(&self.root)
    }

    /// Adds a payload after those already added.
    pub fn add_payload(&mut self, payload: Payload)
        ensures
            final(self)@ == (LayerModel {
                payloads: old(self)@.payloads.push(payload),
                ..old(self)@
            }),
    {
        self.class.add_payload(&mut self.root, payload);
    }

    /// Adds attributes and payloads after those already added, in their order.
    pub fn extend(&mut self, attrs: Vec<Attr>, payloads: Vec<Payload>)
        ensures
            final(self)@ == (LayerModel {
                attrs: old(self)@.attrs + attrs@,
                payloads: old(self)@.payloads + payloads@,
                ..old(self)@
            }),
    {
        let mut attrs = attrs;
        let mut payloads = payloads;
        self.root.attrs.append(&mut attrs);
        self.root.payloads.append(&mut payloads);
    }
}

impl LayerBuilder {
    /// The layer that `build` would give.
    pub closed spec fn spec_build(&self) -> LayerModel {
        LayerModel {
            class: self.class@,
            data: self.data,
            attrs: self.attrs@,
            payloads: self.payloads@,
        }
    }

    /// The bytes that the layer will cover.
    pub fn data(&self) -> (s: Slice)
        ensures
            s == self.spec_build().data,
    {
        self.data
    }

    /// Adds an attribute after those already added.
    pub fn add_attr(&mut self, attr: Attr)
        ensures
            final(self).spec_build() == (LayerModel {
                attrs: old(self).spec_build().attrs.push(attr),
                ..old(self).spec_build()
            }),
    {
        self.attrs.push(attr);
    }

    /// Adds a payload after those already added.
    pub fn add_payload(&mut self, payload: Payload)
        ensures
            final(self).spec_build() == (LayerModel {
                payloads: old(self).spec_build().payloads.push(payload),
                ..old(self).spec_build()
            }),
    {
        self.payloads.push(payload);
    }

    /// The layer itself that `build` would give.
    pub closed spec fn spec_layer(&self) -> Layer {
        Layer {
            class: self.class,
            data: self.data,
            root: LayerData { attrs: self.attrs, payloads: self.payloads },
        }
    }

    pub fn build(self) -> (l: Layer)
        ensures
            l == self.spec_layer(),
            l@ == self.spec_build(),
    {
        Layer {
            class: self.class,
            data: self.data,
            root: LayerData { attrs: self.attrs, payloads: self.payloads },
        }
    }
}

impl From<LayerBuilder> for Layer {
    fn from(b: LayerBuilder) -> (l: Layer) {
        Layer {
            class: b.class,
            data: b.data,
            root: LayerData { attrs: b.attrs, payloads: b.payloads },
        }
    }
}

impl FromSpecImpl<LayerBuilder> for Layer {
    open spec fn obeys_from_spec() -> bool {
        true
    }

    open spec fn from_spec(b: LayerBuilder) -> Layer {
        b.spec_layer()
    }
}

/// The decoded layers on the way from the root of a frame down to the layer in work: the
/// bottom was decoded first, the top last. The stack holds one path, never a sibling.
pub struct LayerStack<'a> {
    buffer: Vec<&'a Layer>,
}

impl<'a> View for LayerStack<'a> {
    type V = Seq<LayerModel>;

    closed spec fn view(&self) -> Seq<LayerModel> {
        Seq::new(self.buffer@.len(), |i: int| self.buffer@[i]@)
    }
}

impl<'a> LayerStack<'a> {
    /// The stack of `buffer`, bottom first.
    pub fn new(buffer: Vec<&'a Layer>) -> (s: LayerStack<'a>)
        ensures
            s@.len() == buffer@.len(),
            forall|i: int| 0 <= i < buffer@.len() ==> s@[i] == buffer@[i]@,
    {
        LayerStack { buffer }
    }

    /// The stack of no layer.
    pub fn empty() -> (s: LayerStack<'a>)
        ensures
            s@.len() == 0,
    {
        LayerStack { buffer: Vec::new() }
    }

    /// The number of layers on the stack.
    pub fn len(&self) -> (n: usize)
        ensures
            n == self@.len(),
    {
        self.buffer.len()
    }

    /// The layer decoded last.
    pub fn top(&self) -> (r: Option<&Layer>)
        ensures
            match r {
                Some(l) => self@.len() > 0 && l@ == self@.last(),
                None => self@.len() == 0,
            },
    {
        let n = self.buffer.len();
        if n == 0 {
            None
        } else {
            Some(self.buffer[n - 1])
        }
    }

    /// The layer decoded first.
    pub fn bottom(&self) -> (r: Option<&Layer>)
        ensures
            match r {
                Some(l) => self@.len() > 0 && l@ == self@[0],
                None => self@.len() == 0,
            },
    {
        if self.buffer.len() == 0 {
            None
        } else {
            Some(self.buffer[0])
        }
    }

    /// The attribute that the stack shows under `id`: that of the topmost layer which
    /// shows one.
    pub fn attr(&self, id: Token) -> (r: Option<&Attr>)
        ensures
            match r {
                Some(a) => stack_attr(self@, id) == Some(*a),
                None => stack_attr(self@, id) is None,
            },
    {
        let mut i: usize = self.buffer.len();
        assert(self@.take(i as int) =~= self@);
        while i > 0
            invariant
                i <= self.buffer@.len(),
                stack_attr(self@, id) == stack_attr(self@.take(i as int), id),
            decreases i,
        {
            i = i - 1;
            assert(self@.take(i + 1).last() == self.buffer@[i as int]@);
            assert(self@.take(i + 1).drop_last() =~= self@.take(i as int));
            if let Some(a) = self.buffer[i].attr(id) {
                return Some(a);
            }
        }
        None
    }

    /// The lowest layer of the class named `id`.
    pub fn layer(&self, id: Token) -> (r: Option<&Layer>)
        ensures
            match r {
                Some(l) => stack_layer(self@, id) < self@.len() && l@ == self@[stack_layer(
                    self@,
                    id,
                ) as int],
                None => stack_layer(self@, id) == self@.len(),
            },
    {
        let mut i: usize = 0;
        assert(self@.skip(0) =~= self@);
        while i < self.buffer.len()
            invariant
                i <= self.buffer@.len(),
                stack_layer(self@, id) == i + stack_layer(self@.skip(i as int), id),
            decreases self.buffer@.len() - i,
        {
            assert(self@.skip(i as int)[0] == self.buffer@[i as int]@);
            if self.buffer[i].id() == id {
                return Some(self.buffer[i]);
            }
            assert(self@.skip(i as int).skip(1) =~= self@.skip(i + 1));
            i = i + 1;
        }
        None
    }
}

/// What a worker holds of the layer it decodes: it reads the layer, and what it adds is
/// kept aside until its call has returned.
pub struct LayerProxy<'a> {
    layer: &'a Layer,
    attrs: Vec<Attr>,
    payloads: Vec<Payload>,
    children: Vec<Layer>,
}

impl<'a> LayerProxy<'a> {
    /// The layer that is read.
    pub closed spec fn target(&self) -> LayerModel {
        self.layer@
    }

    /// The attributes added so far.
    pub closed spec fn added_attrs(&self) -> Seq<Attr> {
        self.attrs@
    }

    /// The payloads added so far.
    pub closed spec fn added_payloads(&self) -> Seq<Payload> {
        self.payloads@
    }

    /// The child layers added so far.
    pub closed spec fn added_children(&self) -> Seq<LayerModel> {
        models(self.children@)
    }

    /// `self` is for the same layer as `before` and holds what `before` held, with
    /// anything more after it.
    pub open spec fn extends(&self, before: LayerProxy<'a>) -> bool {
        &&& self.target() == before.target()
        &&& before.added_attrs().is_prefix_of(self.added_attrs())
        &&& before.added_payloads().is_prefix_of(self.added_payloads())
        &&& before.added_children().is_prefix_of(self.added_children())
    }

    /// The attributes added since the proxy was as `before`.
    pub open spec fn gained_attrs(&self, before: LayerProxy<'a>) -> Seq<Attr> {
        self.added_attrs().skip(before.added_attrs().len() as int)
    }

    /// The payloads added since the proxy was as `before`.
    pub open spec fn gained_payloads(&self, before: LayerProxy<'a>) -> Seq<Payload> {
        self.added_payloads().skip(before.added_payloads().len() as int)
    }

    /// The child layers added since the proxy was as `before`.
    pub open spec fn gained_children(&self, before: LayerProxy<'a>) -> Seq<LayerModel> {
        self.added_children().skip(before.added_children().len() as int)
    }

    /// The layer and everything that was added are laid over the bytes of the layer's
    /// buffer.
    pub open spec fn in_place(&self) -> bool {
        let buffer = self.target().data.buffer();
        &&& in_place(self.target(), buffer)
        &&& forall|i: int|
            0 <= i < self.added_payloads().len() ==> (#[trigger] self.added_payloads()[i]).data.wf()
                && self.added_payloads()[i].data.buffer() == buffer
        &&& all_in_place(self.added_children(), buffer)
    }

    /// A proxy for `layer`, with nothing added. The layer is not changed through it.
    pub fn from_mut_ref(layer: &'a mut Layer) -> (p: LayerProxy<'a>)
        ensures
            p.target() == old(layer)@,
            p.added_attrs().len() == 0,
            p.added_payloads().len() == 0,
            p.added_children().len() == 0,
            *final(layer) == *old(layer),
    {
        LayerProxy {
            layer: &*layer,
            attrs: Vec::new(),
            payloads: Vec::new(),
            children: Vec::new(),
        }
    }

    /// A proxy for `layer`, with nothing added.
    pub fn from_ref(layer: &'a Layer) -> (p: LayerProxy<'a>)
        ensures
            p.target() == layer@,
            p.added_attrs().len() == 0,
            p.added_payloads().len() == 0,
            p.added_children().len() == 0,
    {
        LayerProxy { layer, attrs: Vec::new(), payloads: Vec::new(), children: Vec::new() }
    }

    /// The name of the layer's class.
    pub fn id(&self) -> (t: Token)
        ensures
            t == self.target().class.id,
    {
        self.layer.id()
    }

    /// The bytes that the layer covers.
    pub fn data(&self) -> (s: Slice)
        ensures
            s == self.target().data,
    {
        self.layer.data()
    }

    /// The attributes that every layer of the class has.
    pub fn headers(&self) -> (r: &[Attr])
        ensures
            r@ == self.target().class.headers,
    {
        self.layer.headers()
    }

    /// The attributes that the layer had when the proxy was made.
    pub fn attrs(&self) -> (r: &[Attr])
        ensures
            r@ == self.target().attrs,
    {
        self.layer.attrs()
    }

    /// The attribute that the layer shows under `id`.
    pub fn attr(&self, id: Token) -> (r: Option<&Attr>)
        ensures
            match r {
                Some(a) => lookup(self.target(), id) == Some(*a),
                None => lookup(self.target(), id) is None,
            },
    {
        self.layer.attr(id)
    }

    /// Adds an attribute for the layer.
    pub fn add_attr(&mut self, attr: Attr)
        ensures
            final(self).target() == old(self).target(),
            final(self).added_attrs() == old(self).added_attrs().push(attr),
            final(self).added_payloads() == old(self).added_payloads(),
            final(self).added_children() == old(self).added_children(),
            final(self).extends(*old(self)),
    {
        self.attrs.push(attr);
    }

    /// The payloads that the layer had when the proxy was made.
    pub fn payloads(&self) -> (r: &[Payload])
        ensures
            r@ == self.target().payloads,
    {
        self.layer.payloads()
    }

    /// Adds a payload for the layer.
    pub fn add_payload(&mut self, payload: Payload)
        ensures
            final(self).target() == old(self).target(),
            final(self).added_attrs() == old(self).added_attrs(),
            final(self).added_payloads() == old(self).added_payloads().push(payload),
            final(self).added_children() == old(self).added_children(),
            final(self).extends(*old(self)),
    {
        self.payloads.push(payload);
    }

    /// Adds a child of the layer.
    pub fn add_child(&mut self, layer: Layer)
        ensures
            final(self).target() == old(self).target(),
            final(self).added_attrs() == old(self).added_attrs(),
            final(self).added_payloads() == old(self).added_payloads(),
            final(self).added_children() == old(self).added_children().push(layer@),
            final(self).extends(*old(self)),
    {
        self.children.push(layer);
        assert(models(self.children@) =~= models(old(self).children@).push(layer@));
    }

    /// Moves `layers` behind the children added so far.
    pub fn add_children(&mut self, layers: &mut Vec<Layer>)
        ensures
            final(layers)@.len() == 0,
            final(self).target() == old(self).target(),
            final(self).added_attrs() == old(self).added_attrs(),
            final(self).added_payloads() == old(self).added_payloads(),
            final(self).added_children() == old(self).added_children() + models(old(layers)@),
            final(self).extends(*old(self)),
    {
        self.children.append(layers);
        assert(models(self.children@) =~= models(old(self).children@) + models(old(layers)@));
    }

    /// The child layers added so far.
    pub fn children(&self) -> (r: &[Layer])
        ensures
            models(r@) == self.added_children(),
    {
        self.children.as_slice()
    }

    /// Gives up the proxy for what was added through it: attributes, payloads, children.
    pub fn into_parts(self) -> (r: (Vec<Attr>, Vec<Payload>, Vec<Layer>))
        ensures
            r.0@ == self.added_attrs(),
            r.1@ == self.added_payloads(),
            models(r.2@) == self.added_children(),
    {
        (self.attrs, self.payloads, self.children)
    }
}

} // verus!
