use vstd::prelude::*;
use vstd::std_specs::convert::FromSpecImpl;

verus! {

/// An interned name. Two tokens denote the same name exactly when their numbers agree;
/// no other order or arithmetic on the numbers means anything.
#[derive(Clone, Copy, Debug, PartialEq, Eq, Structural, Hash)]
pub struct Token {
    pub id: u64,
}

impl Token {
    /// The token of the empty name.
    pub fn null() -> (t: Token)
        ensures
            t.id == 0,
    {
        Token { id: 0 }
    }

    pub fn is_null(&self) -> (b: bool)
        ensures
            b == (self.id == 0),
    {
        self.id == 0
    }

    /// The number behind the token.
    pub fn index(&self) -> (n: u64)
        ensures
            n == self.id,
    {
        self.id
    }
}

impl From<u64> for Token {
    fn from(id: u64) -> (t: Token) {
        Token { id }
    }
}

impl FromSpecImpl<u64> for Token {
    open spec fn obeys_from_spec() -> bool {
        true
    }

    open spec fn from_spec(id: u64) -> Token {
        Token { id }
    }
}

/// A table that gives every name one token: the empty name has the null token, and the
/// n-th other name that was interned has the number n.
pub struct Interner {
    names: Vec<String>,
}

/// The place of the first occurrence of `name` in `names`, or the length of `names`.
pub open spec fn position(names: Seq<Seq<char>>, name: Seq<char>) -> nat
    decreases names.len(),
{
    if names.len() == 0 || names[0] == name {
        0
    } else {
        1 + position(names.skip(1), name)
    }
}

pub proof fn lemma_position(names: Seq<Seq<char>>, name: Seq<char>)
    ensures
        position(names, name) <= names.len(),
        position(names, name) < names.len() ==> names[position(names, name) as int] == name,
        forall|i: int| 0 <= i < position(names, name) ==> names[i] != name,
        names.contains(name) <==> position(names, name) < names.len(),
    decreases names.len(),
{
    if names.len() == 0 || names[0] == name {
    } else {
        let rest = names.skip(1);
        lemma_position(rest, name);
        assert forall|i: int| 0 <= i < position(names, name) implies names[i] != name by {
            if i > 0 {
                assert(rest[i - 1] == names[i]);
            }
        }
        if names.contains(name) {
            let k = choose|k: int| 0 <= k < names.len() && names[k] == name;
            assert(rest[k - 1] == name);
        }
    }
}

impl Interner {
    /// The names interned so far, in the order of their first interning.
    pub closed spec fn names(&self) -> Seq<Seq<char>> {
        Seq::new(self.names@.len(), |i: int| self.names@[i]@)
    }

    /// No name is held twice, and none is empty.
    #[verifier::type_invariant]
    closed spec fn inv(&self) -> bool {
        &&& forall|i: int, j: int|
            0 <= i < j < self.names@.len() ==> self.names@[i]@ != self.names@[j]@
        &&& forall|i: int| 0 <= i < self.names@.len() ==> self.names@[i]@.len() > 0
    }

    /// The token that `name` has or would get in a table with these names.
    pub open spec fn token_of(names: Seq<Seq<char>>, name: Seq<char>) -> Token {
        if name.len() == 0 {
            Token { id: 0 }
        } else {
            Token { id: (position(names, name) + 1) as u64 }
        }
    }

    /// Each of `tokens` is the token of the name at its place in `wanted`, and `names`
    /// holds every one of these names.
    pub open spec fn all_named(names: Seq<Seq<char>>, wanted: Seq<&str>, tokens: Seq<Token>) -> bool {
        &&& tokens.len() == wanted.len()
        &&& forall|j: int|
            0 <= j < wanted.len() ==> #[trigger] tokens[j] == Self::token_of(names, wanted[j]@)
        &&& forall|j: int|
            0 <= j < wanted.len() ==> (#[trigger] wanted[j])@.len() == 0 || names.contains(
                wanted[j]@,
            )
    }

    pub fn new() -> (t: Interner)
        ensures
            t.names() == Seq::<Seq<char>>::empty(),
    {
        let t = Interner { names: Vec::new() };
        assert(t.names() =~= Seq::<Seq<char>>::empty());
        t
    }

    /// The number of names held.
    pub fn len(&self) -> (n: usize)
        ensures
            n == self.names().len(),
    {
        self.names.len()
    }

    /// The token of `name`, if the table holds it.
    pub fn find(&self, name: &str) -> (r: Option<Token>)
        ensures
            r == (if name@.len() == 0 || self.names().contains(name@) {
                Some(Self::token_of(self.names(), name@))
            } else {
                None
            }),
    {
        if name.is_empty() {
            return Some(Token { id: 0 });
        }
        let wanted = name.to_owned();
        let mut i: usize = 0;
        while i < self.names.len()
            invariant
                i <= self.names@.len(),
                wanted@ == name@,
                name@.len() > 0,
                forall|j: int| 0 <= j < i ==> self.names()[j] != name@,
            decreases self.names@.len() - i,
        {
            if self.names[i] == wanted {
                proof {
                    lemma_position(self.names(), name@);
                    assert(self.names()[i as int] == name@);
                    let p = position(self.names(), name@);
                    if p < i {
                        assert(self.names()[p as int] != name@);
                    }
                }
                return Some(Token { id: (i + 1) as u64 });
            }
            i = i + 1;
        }
        proof {
            lemma_position(self.names(), name@);
        }
        None
    }

    /// The token of `name`; a name that the table did not hold is added at its end.
    pub fn intern(&mut self, name: &str) -> (t: Token)
        ensures
            t == Self::token_of(old(self).names(), name@),
            final(self).names() == (if name@.len() == 0 || old(self).names().contains(name@) {
                old(self).names()
            } else {
                old(self).names().push(name@)
            }),
    {
        match self.find(name) {
            Some(t) => t,
            None => {
                proof {
                    lemma_position(self.names(), name@);
                }
                proof {
                    use_type_invariant(&*self);
                }
                let owned = name.to_owned();
                let mut names: Vec<String> = Vec::new();
                core::mem::swap(&mut self.names, &mut names);
                names.push(owned);
                let id = names.len() as u64;
                proof {
                    assert forall|i: int, j: int| 0 <= i < j < names@.len() implies names@[i]@
                        != names@[j]@ by {
                        if j == names@.len() - 1 {
                            assert(old(self).names()[i] == names@[i]@);
                        }
                    }
                }
                core::mem::swap(&mut self.names, &mut names);
                assert(self.names() =~= old(self).names().push(name@));
                Token { id }
            },
        }
    }

    /// The tokens of `names`, in their order; names that the table did not hold are added
    /// at its end in their order.
    pub fn intern_all(&mut self, names: &[&str]) -> (tokens: Vec<Token>)
        ensures
            old(self).names().is_prefix_of(final(self).names()),
            tokens@.len() == names@.len(),
            Self::all_named(final(self).names(), names@, tokens@),
    {
        let mut tokens: Vec<Token> = Vec::new();
        let mut i: usize = 0;
        while i < names.len()
            invariant
                i <= names@.len(),
                old(self).names().is_prefix_of(self.names()),
                tokens@.len() == i,
                forall|j: int|
                    0 <= j < i ==> #[trigger] tokens@[j] == Self::token_of(
                        self.names(),
                        names@[j]@,
                    ),
                forall|j: int|
                    0 <= j < i ==> (#[trigger] names@[j])@.len() == 0 || self.names().contains(
                        names@[j]@,
                    ),
            decreases names@.len() - i,
        {
            let ghost before = self.names();
            let ghost had = tokens@;
            let t = self.intern(names[i]);
            tokens.push(t);
            proof {
                let name = names@[i as int]@;
                lemma_position(before, name);
                if name.len() == 0 || before.contains(name) {
                } else {
                    assert forall|j: int| 0 <= j < i implies #[trigger] tokens@[j]
                        == Self::token_of(self.names(), names@[j]@) by {
                        assert(tokens@[j] == had[j]);
                        lemma_token_stable(before, name, names@[j]@);
                    }
                    assert forall|j: int| 0 <= j < i implies (#[trigger] names@[j])@.len() == 0
                        || self.names().contains(names@[j]@) by {
                        if names@[j]@.len() > 0 {
                            let k = choose|k: int|
                                0 <= k < before.len() && before[k] == names@[j]@;
                            assert(self.names()[k] == names@[j]@);
                        }
                    }
                    assert(self.names()[before.len() as int] == name);
                    lemma_position(self.names(), name);
                    let p = position(self.names(), name);
                    if p < before.len() {
                        assert(before[p as int] == self.names()[p as int]);
                    }
                }
            }
            i = i + 1;
        }
        tokens
    }

    /// The name of `token`: empty for the null token, absent for a number not given out.
    pub fn name(&self, token: Token) -> (r: Option<String>)
        ensures
            token.id == 0 ==> r is Some && r->Some_0@ == Seq::<char>::empty(),
            0 < token.id <= self.names().len() ==> r is Some && r->Some_0@ == self.names()[
                token.id - 1],
            token.id > self.names().len() ==> r is None,
    {
        if token.id == 0 {
            Some(String::new())
        } else if token.id - 1 < self.names.len() as u64 {
            let s = self.names[(token.id - 1) as usize].clone();
            Some(s)
        } else {
            None
        }
    }
}

/// A name keeps its token while the table grows.
pub proof fn lemma_token_stable(names: Seq<Seq<char>>, other: Seq<char>, name: Seq<char>)
    requires
        name.len() == 0 || names.contains(name),
    ensures
        Interner::token_of(names.push(other), name) == Interner::token_of(names, name),
    decreases names.len(),
{
    if name.len() > 0 {
        lemma_position(names, name);
        lemma_position(names.push(other), name);
        let p = position(names, name);
        let q = position(names.push(other), name);
        assert(names.push(other)[p as int] == name);
        if q < p {
            assert(names[q as int] == names.push(other)[q as int]);
        }
    }
}

/// Names keep their tokens while the table grows: tokens that are those of `wanted` in
/// the table `names` are those of `wanted` in any table that begins with `names`.
pub proof fn lemma_named_kept(
    names: Seq<Seq<char>>,
    more: Seq<Seq<char>>,
    wanted: Seq<&str>,
    tokens: Seq<Token>,
)
    requires
        Interner::all_named(names, wanted, tokens),
        names.is_prefix_of(more),
    ensures
        Interner::all_named(more, wanted, tokens),
{
    assert forall|j: int| 0 <= j < wanted.len() implies #[trigger] tokens[j]
        == Interner::token_of(more, wanted[j]@) && ((#[trigger] wanted[j])@.len() == 0
        || more.contains(wanted[j]@)) by {
        let name = wanted[j]@;
        assert(tokens[j] == Interner::token_of(names, name));
        if name.len() > 0 {
            assert(names.contains(name));
            lemma_position(names, name);
            lemma_position(more, name);
            let p = position(names, name);
            let q = position(more, name);
            assert(more[p as int] == names[p as int]);
            if q < p {
                assert(names[q as int] == more[q as int]);
            }
        }
    }
}

} // verus!
