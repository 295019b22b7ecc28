//! Filter expressions: names of attributes and numbers, joined by comparisons and by
//! `&&` and `||`, with `!`, `+` and `-` in front and round brackets around.
use crate::cast::be_value;
use crate::token::{lemma_position, position, Interner, Token};
use crate::variant::{BigInt, Variant};
use num_traits::Num;
use vstd::prelude::*;
use vstd::string::{StrSliceExecFns, StringExecFns};

verus! {

/// Whether `char::is_whitespace` of std holds of `c`.
pub uninterp spec fn is_whitespace(c: char) -> bool;

/// Whether `char::is_alphabetic` of std holds of `c`.
pub uninterp spec fn is_alphabetic(c: char) -> bool;

/// Whether `char::is_alphanumeric` of std holds of `c`.
pub uninterp spec fn is_alphanumeric(c: char) -> bool;

/// `char::is_whitespace` of std: whether `c` is white space as Unicode has it.
#[verifier::external_body]
fn whitespace(c: char) -> (b: bool)
    ensures
        b == is_whitespace(c),
{
    c.is_whitespace()
}

/// `char::is_alphabetic` of std: whether `c` is a letter as Unicode has it.
#[verifier::external_body]
fn alphabetic(c: char) -> (b: bool)
    ensures
        b == is_alphabetic(c),
{
    c.is_alphabetic()
}

/// `char::is_alphanumeric` of std: whether `c` is a letter or a number as Unicode has it.
#[verifier::external_body]
fn alphanumeric(c: char) -> (b: bool)
    ensures
        b == is_alphanumeric(c),
{
    c.is_alphanumeric()
}

/// The number that the digit `c` stands for, in any radix up to 36; 36 for a character
/// that is no digit.
pub open spec fn digit_value(c: char) -> nat {
    if '0' <= c <= '9' {
        (c as nat - '0' as nat) as nat
    } else if 'a' <= c <= 'z' {
        (c as nat - 'a' as nat + 10) as nat
    } else if 'A' <= c <= 'Z' {
        (c as nat - 'A' as nat + 10) as nat
    } else {
        36
    }
}

/// The number that the digits `digits` spell in the radix `radix`.
pub open spec fn digits_value(digits: Seq<char>, radix: nat) -> nat
    decreases digits.len(),
{
    if digits.len() == 0 {
        0
    } else {
        digits_value(digits.drop_last(), radix) * radix + digit_value(digits.last())
    }
}

/// Every one of `digits` is a digit of the radix `radix`.
pub open spec fn all_digits(digits: Seq<char>, radix: nat) -> bool {
    forall|i: int| 0 <= i < digits.len() ==> digit_value(#[trigger] digits[i]) < radix
}

/// `from_str_radix` of `num_traits::Num` for `num_bigint::BigInt`, and `to_bytes_be` of
/// the integer it gives: the bytes, most significant first, of the number that the digits
/// spell in the radix. The digits are `0` to `9` and the letters, in either case, for ten
/// and more. The call fails on no digits and on a character that is no digit of the radix,
/// and it panics on a radix outside of 2 to 36.
#[verifier::external_body]
fn magnitude_of(digits: &str, radix: u32) -> (r: Vec<u8>)
    requires
        2 <= radix <= 36,
        digits@.len() > 0,
        all_digits(digits@, radix as nat),
    ensures
        be_value(r@) == digits_value(digits@, radix as nat),
{
    match num_bigint::BigInt::from_str_radix(digits, radix) {
        Ok(v) => v.to_bytes_be().1,
        Err(_) => Vec::new(),
    }
}

/// Whether `c` is a digit of the radix `radix`.
fn is_digit(c: char, radix: u32) -> (b: bool)
    requires
        radix <= 36,
    ensures
        b == (digit_value(c) < radix),
{
    let n = c as u32;
    let d: u32 = if '0' as u32 <= n && n <= '9' as u32 {
        n - '0' as u32
    } else if 'a' as u32 <= n && n <= 'z' as u32 {
        n - 'a' as u32 + 10
    } else if 'A' as u32 <= n && n <= 'Z' as u32 {
        n - 'A' as u32 + 10
    } else {
        36
    };
    d < radix
}

/// A sign between two expressions.
#[derive(Clone, Copy, Debug, PartialEq, Eq, Structural)]
pub enum Op {
    Eq,
    NotEq,
    Lt,
    Gt,
    Lte,
    Gte,
    And,
    Or,
}

impl Op {
    /// How tightly the sign binds: `||` least, then `&&`, then `==` and `!=`, then the
    /// signs of order.
    pub open spec fn spec_level(&self) -> usize {
        match *self {
            Op::Or => 0,
            Op::And => 1,
            Op::Eq | Op::NotEq => 2,
            _ => 3,
        }
    }

    #[verifier::when_used_as_spec(spec_level)]
    pub fn level(&self) -> (n: usize)
        ensures
            n == self.spec_level(),
            n <= 3,
    {
        match self {
            Op::Or => 0,
            Op::And => 1,
            Op::Eq | Op::NotEq => 2,
            _ => 3,
        }
    }
}

/// A filter expression.
#[derive(Debug, PartialEq)]
pub enum Expr {
    Token(Token),
    Literal(Variant),
    LogicalNegation(Box<Expr>),
    UnaryPlus(Box<Expr>),
    UnaryNegation(Box<Expr>),
    CmpEq(Box<Expr>, Box<Expr>),
    CmpNotEq(Box<Expr>, Box<Expr>),
    CmpLt(Box<Expr>, Box<Expr>),
    CmpGt(Box<Expr>, Box<Expr>),
    CmpLte(Box<Expr>, Box<Expr>),
    CmpGte(Box<Expr>, Box<Expr>),
    LogicalAnd(Box<Expr>, Box<Expr>),
    LogicalOr(Box<Expr>, Box<Expr>),
}

/// The expression of two expressions with the sign `sign` between them.
pub fn op(l: Expr, sign: Op, r: Expr) -> (e: Expr)
    ensures
        e == joined(l, sign, r),
{
    match sign {
        Op::Eq => Expr::CmpEq(Box::new(l), Box::new(r)),
        Op::NotEq => Expr::CmpNotEq(Box::new(l), Box::new(r)),
        Op::Lt => Expr::CmpLt(Box::new(l), Box::new(r)),
        Op::Gt => Expr::CmpGt(Box::new(l), Box::new(r)),
        Op::Lte => Expr::CmpLte(Box::new(l), Box::new(r)),
        Op::Gte => Expr::CmpGte(Box::new(l), Box::new(r)),
        Op::And => Expr::LogicalAnd(Box::new(l), Box::new(r)),
        Op::Or => Expr::LogicalOr(Box::new(l), Box::new(r)),
    }
}

/// The expression of two expressions with the sign `sign` between them.
pub open spec fn joined(l: Expr, sign: Op, r: Expr) -> Expr {
    match sign {
        Op::Eq => Expr::CmpEq(Box::new(l), Box::new(r)),
        Op::NotEq => Expr::CmpNotEq(Box::new(l), Box::new(r)),
        Op::Lt => Expr::CmpLt(Box::new(l), Box::new(r)),
        Op::Gt => Expr::CmpGt(Box::new(l), Box::new(r)),
        Op::Lte => Expr::CmpLte(Box::new(l), Box::new(r)),
        Op::Gte => Expr::CmpGte(Box::new(l), Box::new(r)),
        Op::And => Expr::LogicalAnd(Box::new(l), Box::new(r)),
        Op::Or => Expr::LogicalOr(Box::new(l), Box::new(r)),
    }
}

/// What a text says as a filter expression, before its names have tokens.
pub enum Ast {
    /// The attribute of this name.
    Name(Seq<char>),
    /// This number.
    Number(nat),
    Bool(bool),
    /// An expression with `!`, `+` or `-` in front.
    Not(Box<Ast>),
    Plus(Box<Ast>),
    Minus(Box<Ast>),
    /// Two expressions with a sign between them.
    Binary(Op, Box<Ast>, Box<Ast>),
}

/// The value of the number `n` in its smallest form.
pub open spec fn is_number(v: Variant, n: nat) -> bool {
    &&& v.spec_int() == Some(n as int)
    &&& v.spec_shrink() == v
}

/// The expression `e` is what `a` says, with the tokens that the names have in `names`.
pub open spec fn denotes(e: Expr, a: Ast, names: Seq<Seq<char>>) -> bool
    decreases a,
{
    match a {
        Ast::Name(name) => e == Expr::Token(Interner::token_of(names, name)) && (name.len() == 0
            || names.contains(name)),
        Ast::Number(n) => e matches Expr::Literal(v) && is_number(v, n),
        Ast::Bool(b) => e == Expr::Literal(Variant::Bool(b)),
        Ast::Not(inner) => e matches Expr::LogicalNegation(x) && denotes(*x, *inner, names),
        Ast::Plus(inner) => e matches Expr::UnaryPlus(x) && denotes(*x, *inner, names),
        Ast::Minus(inner) => e matches Expr::UnaryNegation(x) && denotes(*x, *inner, names),
        Ast::Binary(sign, left, right) => exists|l: Expr, r: Expr|
            e == joined(l, sign, r) && denotes(l, *left, names) && denotes(r, *right, names),
    }
}

/// A character that a name may begin with.
pub open spec fn is_name_start(c: char) -> bool {
    is_alphabetic(c) || c == '_'
}

/// A character that a name may go on with.
pub open spec fn is_name_part(c: char) -> bool {
    is_alphanumeric(c) || c == '_'
}

/// A sign that may stand in front of an expression.
pub open spec fn is_prefix(c: char) -> bool {
    c == '!' || c == '+' || c == '-'
}

/// The place behind the white space that begins at `i`.
pub open spec fn skip_spaces(s: Seq<char>, i: int) -> int
    decreases s.len() - i,
{
    if 0 <= i < s.len() && is_whitespace(s[i]) {
        skip_spaces(s, i + 1)
    } else {
        i
    }
}

/// The place behind the characters from `i` on that a name may begin with.
pub open spec fn skip_name_start(s: Seq<char>, i: int) -> int
    decreases s.len() - i,
{
    if 0 <= i < s.len() && is_name_start(s[i]) {
        skip_name_start(s, i + 1)
    } else {
        i
    }
}

/// The place behind the characters from `i` on that a name may go on with.
pub open spec fn skip_name_part(s: Seq<char>, i: int) -> int
    decreases s.len() - i,
{
    if 0 <= i < s.len() && is_name_part(s[i]) {
        skip_name_part(s, i + 1)
    } else {
        i
    }
}

/// The place behind the digits of the radix `radix` that begin at `i`.
pub open spec fn skip_digits(s: Seq<char>, i: int, radix: nat) -> int
    decreases s.len() - i,
{
    if 0 <= i < s.len() && digit_value(s[i]) < radix {
        skip_digits(s, i + 1, radix)
    } else {
        i
    }
}

/// The place behind the signs in front of an expression that begin at `i`.
pub open spec fn skip_prefixes(s: Seq<char>, i: int) -> int
    decreases s.len() - i,
{
    if 0 <= i < s.len() && is_prefix(s[i]) {
        skip_prefixes(s, i + 1)
    } else {
        i
    }
}

/// The text has the characters of `word` from `i` on.
pub open spec fn starts_with(s: Seq<char>, i: int, word: Seq<char>) -> bool {
    0 <= i && i + word.len() <= s.len() && s.subrange(i, i + word.len()) == word
}

/// The end of the part of a name that begins at `i`: characters that a name may begin
/// with, at least one, and then characters that a name may go on with.
pub open spec fn chunk_end(s: Seq<char>, i: int) -> Option<int> {
    let j = skip_name_start(s, i);
    if j > i {
        Some(skip_name_part(s, j))
    } else {
        None
    }
}

/// The name that goes on at `j` behind the parts `name`, and its end: every further part
/// stands behind a dot, and a dot without a part behind it is a fault. The parts make
/// the name without the dots.
pub open spec fn members(s: Seq<char>, j: int, name: Seq<char>) -> Option<(Seq<char>, int)>
    decreases s.len() - j,
{
    if 0 <= j < s.len() && s[j] == '.' {
        match chunk_end(s, j + 1) {
            Some(k) => if j < k <= s.len() {
                members(s, k, name + s.subrange(j + 1, k))
            } else {
                None
            },
            None => None,
        }
    } else {
        Some((name, j))
    }
}

/// The name that begins at `i`, and its end.
pub open spec fn identifier_at(s: Seq<char>, i: int) -> Option<(Seq<char>, int)> {
    match chunk_end(s, i) {
        Some(j) => members(s, j, s.subrange(i, j)),
        None => None,
    }
}

/// The number that the digits of the radix `radix` spell which begin at `i`, and their
/// end; there must be a digit.
pub open spec fn digits_at(s: Seq<char>, i: int, radix: nat) -> Option<(nat, int)> {
    let j = skip_digits(s, i, radix);
    if j > i {
        Some((digits_value(s.subrange(i, j), radix), j))
    } else {
        None
    }
}

/// The number that begins at `i`, and its end: behind `0x` in the radix 16, behind `0o`
/// in the radix 8, behind `0b` in the radix 2, else in the radix 10.
pub open spec fn number_at(s: Seq<char>, i: int) -> Option<(nat, int)> {
    if starts_with(s, i, seq!['0', 'x']) {
        digits_at(s, i + 2, 16)
    } else if starts_with(s, i, seq!['0', 'o']) {
        digits_at(s, i + 2, 8)
    } else if starts_with(s, i, seq!['0', 'b']) {
        digits_at(s, i + 2, 2)
    } else {
        digits_at(s, i, 10)
    }
}

/// The truth value or the number that begins at `i`, and its end. What begins with `t`
/// must be `true`, and what begins with `f` must be `false`.
pub open spec fn literal_at(s: Seq<char>, i: int) -> Option<(Ast, int)> {
    if 0 <= i < s.len() && s[i] == 't' {
        if starts_with(s, i, seq!['t', 'r', 'u', 'e']) {
            Some((Ast::Bool(true), i + 4))
        } else {
            None
        }
    } else if 0 <= i < s.len() && s[i] == 'f' {
        if starts_with(s, i, seq!['f', 'a', 'l', 's', 'e']) {
            Some((Ast::Bool(false), i + 5))
        } else {
            None
        }
    } else {
        match number_at(s, i) {
            Some((n, j)) => Some((Ast::Number(n), j)),
            None => None,
        }
    }
}

/// The sign between two expressions that begins at `i`, and the place behind it and the
/// white space that follows. The signs are tried in the order `<`, `>`, `==`, `!=`, `&&`,
/// `||`; so `<=` is read as `<`, and `>=` as `>`.
pub open spec fn op_at(s: Seq<char>, i: int) -> Option<(Op, int)> {
    if 0 <= i < s.len() && s[i] == '<' {
        Some((Op::Lt, skip_spaces(s, i + 1)))
    } else if 0 <= i < s.len() && s[i] == '>' {
        Some((Op::Gt, skip_spaces(s, i + 1)))
    } else if starts_with(s, i, seq!['=', '=']) {
        Some((Op::Eq, skip_spaces(s, i + 2)))
    } else if starts_with(s, i, seq!['!', '=']) {
        Some((Op::NotEq, skip_spaces(s, i + 2)))
    } else if starts_with(s, i, seq!['&', '&']) {
        Some((Op::And, skip_spaces(s, i + 2)))
    } else if starts_with(s, i, seq!['|', '|']) {
        Some((Op::Or, skip_spaces(s, i + 2)))
    } else {
        None
    }
}

/// `a` with the signs of `s` from `j` up to `k` in front of it, the first outermost.
pub open spec fn prefixed(s: Seq<char>, j: int, k: int, a: Ast) -> Ast
    decreases k - j,
{
    if j >= k || j < 0 || j >= s.len() {
        a
    } else if s[j] == '!' {
        Ast::Not(Box::new(prefixed(s, j + 1, k, a)))
    } else if s[j] == '+' {
        Ast::Plus(Box::new(prefixed(s, j + 1, k, a)))
    } else {
        Ast::Minus(Box::new(prefixed(s, j + 1, k, a)))
    }
}

/// Where a search for a sign between two expressions ends that finds none at `i`: behind
/// the character that follows a `=`, `!`, `&` or `|`, else at `i`. A sign of two
/// characters that is found only by half takes the other character with it.
pub open spec fn op_miss(s: Seq<char>, i: int) -> int {
    if 0 <= i < s.len() && (s[i] == '=' || s[i] == '!' || s[i] == '&' || s[i] == '|') {
        if i + 1 < s.len() {
            i + 2
        } else {
            i + 1
        }
    } else {
        i
    }
}

/// The expression that begins at `i` with signs in front of it, or none, and then a term;
/// and its end. White space may stand before the signs and before the term.
pub open spec fn unary_at(s: Seq<char>, i: int) -> Option<(Ast, int)>
    decreases s.len() - i, 9nat,
{
    if i < 0 || i > s.len() {
        None
    } else {
        let j = skip_spaces(s, i);
        let k = skip_prefixes(s, j);
        if i <= k <= s.len() {
            match term_at(s, k) {
                Some((a, end)) => Some((prefixed(s, j, k, a), end)),
                None => None,
            }
        } else {
            None
        }
    }
}

/// The expression that begins with `left` and goes on at `i` with signs of the level
/// `min` and above, and its end. A sign below the level ends the expression before
/// the sign; behind any other sign an expression must follow, which takes the signs of
/// higher levels behind it as `right_at` says, and is joined to `left` on its right.
/// Where no sign is found the expression ends as `op_miss` says.
pub open spec fn rest_at(s: Seq<char>, i: int, min: nat, left: Ast) -> Option<(Ast, int)>
    decreases s.len() - i, 4 - min,
{
    if i < 0 || i > s.len() || min > 3 {
        None
    } else {
        match op_at(s, i) {
            None => Some((left, op_miss(s, i))),
            Some((sign, k)) => {
                if sign.spec_level() < min {
                    Some((left, i))
                } else if !(i < k <= s.len()) {
                    None
                } else {
                    match unary_at(s, k) {
                        None => None,
                        Some((right, q)) => {
                            if !(k <= q <= s.len()) {
                                None
                            } else {
                                match right_at(s, q, sign.spec_level() as nat, right) {
                                    None => None,
                                    Some((grown, end)) => {
                                        if !(q <= end <= s.len()) {
                                            None
                                        } else {
                                            rest_at(
                                                s,
                                                end,
                                                min,
                                                Ast::Binary(sign, Box::new(left), Box::new(grown)),
                                            )
                                        }
                                    },
                                }
                            }
                        },
                    }
                }
            },
        }
    }
}

/// The expression on the right of a sign of the level `level` that begins with `right`
/// and goes on at `q`, and its end: as long as a sign of a higher level follows, the
/// expression takes it and what belongs to it. Where no sign is found the expression
/// ends as `op_miss` says, and the search for signs goes on from there.
pub open spec fn right_at(s: Seq<char>, q: int, level: nat, right: Ast) -> Option<(Ast, int)>
    decreases s.len() - q, 4 - level,
{
    if q < 0 || q > s.len() || level > 3 {
        None
    } else {
        match op_at(s, q) {
            None => Some((right, op_miss(s, q))),
            Some((sign, _)) => {
                if sign.spec_level() > level {
                    match rest_at(s, q, sign.spec_level() as nat, right) {
                        None => None,
                        Some((grown, end)) => {
                            if q < end <= s.len() {
                                right_at(s, end, level, grown)
                            } else {
                                None
                            }
                        },
                    }
                } else {
                    Some((right, q))
                }
            },
        }
    }
}

/// The expression that begins at `i`, and its end.
pub open spec fn expression_at(s: Seq<char>, i: int) -> Option<(Ast, int)>
    decreases s.len() - i, 10nat,
{
    if i < 0 || i > s.len() {
        None
    } else {
        match unary_at(s, i) {
            Some((a, j)) => if i <= j <= s.len() {
                rest_at(s, j, 0, a)
            } else {
                None
            },
            None => None,
        }
    }
}

/// The term that begins at `i`, and its end behind the white space that follows it: an
/// expression in round brackets, a name, or a truth value or number; white space may
/// stand in front.
pub open spec fn term_at(s: Seq<char>, i: int) -> Option<(Ast, int)>
    decreases s.len() - i, 8nat,
{
    let j = skip_spaces(s, i);
    if i < 0 || j < i || j > s.len() {
        None
    } else if j < s.len() && s[j] == '(' {
        match expression_at(s, j + 1) {
            Some((a, k)) => if 0 <= k < s.len() && s[k] == ')' {
                Some((a, skip_spaces(s, k + 1)))
            } else {
                None
            },
            None => None,
        }
    } else if chunk_end(s, j) is Some {
        match identifier_at(s, j) {
            Some((name, k)) => Some((Ast::Name(name), skip_spaces(s, k))),
            None => None,
        }
    } else {
        match literal_at(s, j) {
            Some((a, k)) => Some((a, skip_spaces(s, k))),
            None => None,
        }
    }
}

/// What `s` says as a filter expression, and where the reading ends; none where `s` does
/// not begin with an expression.
pub open spec fn expression_of(s: Seq<char>) -> Option<(Ast, int)> {
    expression_at(s, 0)
}

/// A run of characters of one kind ends where the text ends or another character stands,
/// and reaches no further.
pub proof fn lemma_skips(s: Seq<char>, i: int, radix: nat)
    requires
        0 <= i <= s.len(),
    ensures
        i <= skip_spaces(s, i) <= s.len(),
        i <= skip_name_start(s, i) <= s.len(),
        i <= skip_name_part(s, i) <= s.len(),
        i <= skip_digits(s, i, radix) <= s.len(),
        i <= skip_prefixes(s, i) <= s.len(),
        forall|k: int| i <= k < skip_digits(s, i, radix) ==> digit_value(#[trigger] s[k]) < radix,
        forall|k: int| i <= k < skip_prefixes(s, i) ==> is_prefix(#[trigger] s[k]),
    decreases s.len() - i,
{
    if i < s.len() {
        lemma_skips(s, i + 1, radix);
    }
}

/// A name keeps its token where names are added behind those that a table holds.
pub proof fn lemma_token_kept(names: Seq<Seq<char>>, more: Seq<Seq<char>>, name: Seq<char>)
    requires
        names.is_prefix_of(more),
        name.len() == 0 || names.contains(name),
    ensures
        Interner::token_of(more, name) == Interner::token_of(names, name),
        name.len() == 0 || more.contains(name),
{
    if name.len() > 0 {
        lemma_position(names, name);
        lemma_position(more, name);
        let p = position(names, name);
        let q = position(more, name);
        assert(more[p as int] == names[p as int]);
        if q < p {
            assert(names[q as int] == more[q as int]);
        }
    }
}

/// An expression is what a text says also with the tokens of a table that holds more
/// names behind those it held.
pub proof fn lemma_denotes_kept(e: Expr, a: Ast, names: Seq<Seq<char>>, more: Seq<Seq<char>>)
    requires
        denotes(e, a, names),
        names.is_prefix_of(more),
    ensures
        denotes(e, a, more),
    decreases a,
{
    match a {
        Ast::Name(name) => {
            lemma_token_kept(names, more, name);
        },
        Ast::Number(n) => {},
        Ast::Bool(b) => {},
        Ast::Not(inner) => {
            if let Expr::LogicalNegation(x) = e {
                lemma_denotes_kept(*x, *inner, names, more);
            }
        },
        Ast::Plus(inner) => {
            if let Expr::UnaryPlus(x) = e {
                lemma_denotes_kept(*x, *inner, names, more);
            }
        },
        Ast::Minus(inner) => {
            if let Expr::UnaryNegation(x) = e {
                lemma_denotes_kept(*x, *inner, names, more);
            }
        },
        Ast::Binary(sign, left, right) => {
            let (l, r) = choose|l: Expr, r: Expr|
                e == joined(l, sign, r) && denotes(l, *left, names) && denotes(
                    r,
                    *right,
                    names,
                );
            lemma_denotes_kept(l, *left, names, more);
            lemma_denotes_kept(r, *right, names, more);
        },
    }
}

/// `r` is the outcome of parsing where the text says `wanted`: the expression of what
/// the text says, with the tokens of `names`, and the same end; or nothing where the
/// text says nothing.
pub open spec fn parsed(
    r: Option<(Expr, usize)>,
    wanted: Option<(Ast, int)>,
    names: Seq<Seq<char>>,
) -> bool {
    match wanted {
        Some((a, end)) => r matches Some((e, j)) && j == end && denotes(e, a, names),
        None => r is None,
    }
}

/// A text with its characters laid out one by one.
struct Input<'a> {
    text: &'a str,
    chars: Vec<char>,
}

impl<'a> Input<'a> {
    spec fn wf(&self) -> bool {
        self.chars@ == self.text@
    }

    fn new(text: &'a str) -> (input: Input<'a>)
        ensures
            input.wf(),
            input.text@ == text@,
    {
        let n = text.unicode_len();
        let mut chars: Vec<char> = Vec::new();
        let mut i: usize = 0;
        while i < n
            invariant
                i <= n,
                n == text@.len(),
                chars@ == text@.take(i as int),
            decreases n - i,
        {
            chars.push(text.get_char(i));
            assert(chars@ =~= text@.take(i + 1));
            i = i + 1;
        }
        assert(text@.take(n as int) =~= text@);
        Input { text, chars }
    }

    fn spaces(&self, i: usize) -> (j: usize)
        requires
            i <= self.chars@.len(),
        ensures
            j == skip_spaces(self.chars@, i as int),
            i <= j <= self.chars@.len(),
    {
        let mut j = i;
        while j < self.chars.len() && whitespace(self.chars[j])
            invariant
                i <= j <= self.chars@.len(),
                skip_spaces(self.chars@, i as int) == skip_spaces(self.chars@, j as int),
            decreases self.chars@.len() - j,
        {
            j = j + 1;
        }
        j
    }

    fn name_start(&self, i: usize) -> (j: usize)
        requires
            i <= self.chars@.len(),
        ensures
            j == skip_name_start(self.chars@, i as int),
            i <= j <= self.chars@.len(),
    {
        let mut j = i;
        while j < self.chars.len() && (alphabetic(self.chars[j]) || self.chars[j] == '_')
            invariant
                i <= j <= self.chars@.len(),
                skip_name_start(self.chars@, i as int) == skip_name_start(self.chars@, j as int),
            decreases self.chars@.len() - j,
        {
            j = j + 1;
        }
        j
    }

    fn name_part(&self, i: usize) -> (j: usize)
        requires
            i <= self.chars@.len(),
        ensures
            j == skip_name_part(self.chars@, i as int),
            i <= j <= self.chars@.len(),
    {
        let mut j = i;
        while j < self.chars.len() && (alphanumeric(self.chars[j]) || self.chars[j] == '_')
            invariant
                i <= j <= self.chars@.len(),
                skip_name_part(self.chars@, i as int) == skip_name_part(self.chars@, j as int),
            decreases self.chars@.len() - j,
        {
            j = j + 1;
        }
        j
    }

    fn digits(&self, i: usize, radix: u32) -> (j: usize)
        requires
            i <= self.chars@.len(),
            radix <= 36,
        ensures
            j == skip_digits(self.chars@, i as int, radix as nat),
            i <= j <= self.chars@.len(),
    {
        let mut j = i;
        while j < self.chars.len() && is_digit(self.chars[j], radix)
            invariant
                i <= j <= self.chars@.len(),
                radix <= 36,
                skip_digits(self.chars@, i as int, radix as nat) == skip_digits(
                    self.chars@,
                    j as int,
                    radix as nat,
                ),
            decreases self.chars@.len() - j,
        {
            j = j + 1;
        }
        j
    }

    fn prefixes(&self, i: usize) -> (j: usize)
        requires
            i <= self.chars@.len(),
        ensures
            j == skip_prefixes(self.chars@, i as int),
            i <= j <= self.chars@.len(),
    {
        let mut j = i;
        while j < self.chars.len() && (self.chars[j] == '!' || self.chars[j] == '+'
            || self.chars[j] == '-')
            invariant
                i <= j <= self.chars@.len(),
                skip_prefixes(self.chars@, i as int) == skip_prefixes(self.chars@, j as int),
            decreases self.chars@.len() - j,
        {
            j = j + 1;
        }
        j
    }

    /// Whether the character at `i` is `c`.
    fn is(&self, i: usize, c: char) -> (b: bool)
        ensures
            b == (i < self.chars@.len() && self.chars@[i as int] == c),
            self.chars@.len() <= usize::MAX,
    {
        i < self.chars.len() && self.chars[i] == c
    }

    /// Whether the characters `a` and `b` stand at `i`.
    fn pair(&self, i: usize, a: char, b: char) -> (r: bool)
        ensures
            r == starts_with(self.chars@, i as int, seq![a, b]),
            self.chars@.len() <= usize::MAX,
    {
        let n = self.chars.len();
        if i < n && n - i >= 2 {
            let r = self.chars[i] == a && self.chars[i + 1] == b;
            proof {
                let word = self.chars@.subrange(i as int, i + 2);
                assert(word[0] == self.chars@[i as int]);
                assert(word[1] == self.chars@[i + 1]);
                if r {
                    assert(word =~= seq![a, b]);
                }
            }
            r
        } else {
            false
        }
    }

    /// Whether the characters of `word` stand at `i`.
    fn word(&self, i: usize, word: &Vec<char>) -> (r: bool)
        ensures
            r == starts_with(self.chars@, i as int, word@),
            self.chars@.len() <= usize::MAX,
    {
        let n = self.chars.len();
        if i > n || n - i < word.len() {
            return false;
        }
        let mut k: usize = 0;
        while k < word.len()
            invariant
                k <= word@.len(),
                n == self.chars@.len(),
                i + word@.len() <= n,
                forall|t: int| 0 <= t < k ==> self.chars@[i + t] == word@[t],
            decreases word@.len() - k,
        {
            if self.chars[i + k] != word[k] {
                assert(self.chars@.subrange(i as int, i + word@.len())[k as int]
                    == self.chars@[i + k]);
                return false;
            }
            k = k + 1;
        }
        assert(self.chars@.subrange(i as int, i + word@.len()) =~= word@);
        true
    }
}

impl<'a> Input<'a> {
    /// The end of the part of a name that begins at `i`.
    fn chunk(&self, i: usize) -> (r: Option<usize>)
        requires
            i <= self.chars@.len(),
        ensures
            match r {
                Some(j) => chunk_end(self.chars@, i as int) == Some(j as int) && i < j
                    <= self.chars@.len(),
                None => chunk_end(self.chars@, i as int) is None,
            },
    {
        let j = self.name_start(i);
        if j > i {
            Some(self.name_part(j))
        } else {
            None
        }
    }

    /// The name that begins at `i`, and its end.
    fn identifier(&self, i: usize) -> (r: Option<(String, usize)>)
        requires
            self.wf(),
            i <= self.chars@.len(),
        ensures
            match r {
                Some((name, j)) => identifier_at(self.chars@, i as int) == Some((name@, j as int))
                    && i < j <= self.chars@.len() && name@.len() > 0,
                None => identifier_at(self.chars@, i as int) is None,
            },
    {
        let first = match self.chunk(i) {
            Some(j) => j,
            None => {
                return None;
            },
        };
        let mut name = String::from_str(self.text.substring_char(i, first));
        let mut j = first;
        loop
            invariant
                self.wf(),
                i < j <= self.chars@.len(),
                name@.len() > 0,
                identifier_at(self.chars@, i as int) == members(self.chars@, j as int, name@),
            ensures
                !(j < self.chars@.len() && self.chars@[j as int] == '.'),
            decreases self.chars@.len() - j,
        {
            if !self.is(j, '.') {
                break ;
            }
            match self.chunk(j + 1) {
                Some(k) => {
                    name.append(self.text.substring_char(j + 1, k));
                    j = k;
                },
                None => {
                    return None;
                },
            }
        }
        Some((name, j))
    }

    /// The number that the digits of the radix `radix` spell which begin at `i`, in its
    /// smallest form, and their end.
    fn number_in(&self, i: usize, radix: u32) -> (r: Option<(Variant, usize)>)
        requires
            self.wf(),
            i <= self.chars@.len(),
            2 <= radix <= 36,
        ensures
            match r {
                Some((v, j)) => digits_at(self.chars@, i as int, radix as nat) matches Some((n, end))
                    && j == end && is_number(v, n) && i < j <= self.chars@.len(),
                None => digits_at(self.chars@, i as int, radix as nat) is None,
            },
    {
        let j = self.digits(i, radix);
        if j > i {
            proof {
                lemma_skips(self.chars@, i as int, radix as nat);
            }
            let digits = self.text.substring_char(i, j);
            let magnitude = magnitude_of(digits, radix);
            let v = Variant::BigInt(BigInt::new(false, magnitude)).shrink();
            Some((v, j))
        } else {
            None
        }
    }

    /// The number that begins at `i`, in its smallest form, and its end.
    fn number(&self, i: usize) -> (r: Option<(Variant, usize)>)
        requires
            self.wf(),
            i <= self.chars@.len(),
        ensures
            match r {
                Some((v, j)) => number_at(self.chars@, i as int) matches Some((n, end)) && j == end
                    && is_number(v, n) && i < j <= self.chars@.len(),
                None => number_at(self.chars@, i as int) is None,
            },
    {
        if self.pair(i, '0', 'x') {
            self.number_in(i + 2, 16)
        } else if self.pair(i, '0', 'o') {
            self.number_in(i + 2, 8)
        } else if self.pair(i, '0', 'b') {
            self.number_in(i + 2, 2)
        } else {
            self.number_in(i, 10)
        }
    }

    /// The truth value or the number that begins at `i`, and its end.
    fn literal(&self, i: usize) -> (r: Option<(Expr, usize)>)
        requires
            self.wf(),
            i <= self.chars@.len(),
        ensures
            forall|names: Seq<Seq<char>>| parsed(r, literal_at(self.chars@, i as int), names),
            r matches Some((_, j)) ==> i < j <= self.chars@.len(),
    {
        if self.is(i, 't') {
            let mut word: Vec<char> = Vec::new();
            word.push('t');
            word.push('r');
            word.push('u');
            word.push('e');
            assert(word@ =~= seq!['t', 'r', 'u', 'e']);
            if self.word(i, &word) {
                Some((Expr::Literal(Variant::Bool(true)), i + 4))
            } else {
                None
            }
        } else if self.is(i, 'f') {
            let mut word: Vec<char> = Vec::new();
            word.push('f');
            word.push('a');
            word.push('l');
            word.push('s');
            word.push('e');
            assert(word@ =~= seq!['f', 'a', 'l', 's', 'e']);
            if self.word(i, &word) {
                Some((Expr::Literal(Variant::Bool(false)), i + 5))
            } else {
                None
            }
        } else {
            match self.number(i) {
                Some((v, j)) => Some((Expr::Literal(v), j)),
                None => None,
            }
        }
    }

    /// The sign between two expressions that begins at `i`, and the place behind it and
    /// the white space that follows.
    fn sign(&self, i: usize) -> (r: Option<(Op, usize)>)
        requires
            i <= self.chars@.len(),
        ensures
            match r {
                Some((sign, j)) => op_at(self.chars@, i as int) == Some((sign, j as int)) && i < j
                    <= self.chars@.len(),
                None => op_at(self.chars@, i as int) is None,
            },
    {
        if self.is(i, '<') {
            Some((Op::Lt, self.spaces(i + 1)))
        } else if self.is(i, '>') {
            Some((Op::Gt, self.spaces(i + 1)))
        } else if self.pair(i, '=', '=') {
            Some((Op::Eq, self.spaces(i + 2)))
        } else if self.pair(i, '!', '=') {
            Some((Op::NotEq, self.spaces(i + 2)))
        } else if self.pair(i, '&', '&') {
            Some((Op::And, self.spaces(i + 2)))
        } else if self.pair(i, '|', '|') {
            Some((Op::Or, self.spaces(i + 2)))
        } else {
            None
        }
    }

    /// `e` with the signs from `j` up to `k` in front of it, the first outermost.
    fn prefix(&self, j: usize, k: usize, e: Expr, Ghost(a): Ghost<Ast>, Ghost(names): Ghost<
        Seq<Seq<char>>,
    >) -> (r: Expr)
        requires
            j <= k <= self.chars@.len(),
            forall|t: int| j <= t < k ==> is_prefix(#[trigger] self.chars@[t]),
            denotes(e, a, names),
        ensures
            denotes(r, prefixed(self.chars@, j as int, k as int, a), names),
    {
        let mut e = e;
        let mut t = k;
        let ghost mut inner = a;
        while t > j
            invariant
                j <= t <= k <= self.chars@.len(),
                forall|u: int| j <= u < k ==> is_prefix(#[trigger] self.chars@[u]),
                denotes(e, inner, names),
                prefixed(self.chars@, j as int, k as int, a) == prefixed(
                    self.chars@,
                    j as int,
                    t as int,
                    inner,
                ),
            decreases t - j,
        {
            t = t - 1;
            let c = self.chars[t];
            proof {
                assert(is_prefix(self.chars@[t as int]));
                lemma_prefixed_last(self.chars@, j as int, t as int, inner);
            }
            if c == '!' {
                e = Expr::LogicalNegation(Box::new(e));
                proof {
                    inner = Ast::Not(Box::new(inner));
                }
            } else if c == '+' {
                e = Expr::UnaryPlus(Box::new(e));
                proof {
                    inner = Ast::Plus(Box::new(inner));
                }
            } else {
                e = Expr::UnaryNegation(Box::new(e));
                proof {
                    inner = Ast::Minus(Box::new(inner));
                }
            }
        }
        e
    }
}

/// The signs in front of an expression, the last taken first: the signs up to and with
/// the one at `t` in front of `a` are the signs before `t` in front of `a` with the sign
/// at `t`.
proof fn lemma_prefixed_last(s: Seq<char>, j: int, t: int, a: Ast)
    requires
        0 <= j <= t < s.len(),
    ensures
        prefixed(s, j, t + 1, a) == prefixed(
            s,
            j,
            t,
            if s[t] == '!' {
                Ast::Not(Box::new(a))
            } else if s[t] == '+' {
                Ast::Plus(Box::new(a))
            } else {
                Ast::Minus(Box::new(a))
            },
        ),
    decreases t - j,
{
    reveal_with_fuel(prefixed, 3);
    if j < t {
        lemma_prefixed_last(s, j + 1, t, a);
    }
}

impl<'a> Input<'a> {
    /// The term that begins at `i`, and its end.
    fn term(&self, names: &mut Interner, i: usize) -> (r: Option<(Expr, usize)>)
        requires
            self.wf(),
            i <= self.chars@.len(),
        ensures
            old(names).names().is_prefix_of(final(names).names()),
            parsed(r, term_at(self.chars@, i as int), final(names).names()),
            r matches Some((_, j)) ==> i <= j <= self.chars@.len(),
        decreases self.chars@.len() - i, 8nat,
    {
        let j = self.spaces(i);
        if self.is(j, '(') {
            match self.whole(names, j + 1) {
                Some((e, k)) => {
                    if self.is(k, ')') {
                        Some((e, self.spaces(k + 1)))
                    } else {
                        None
                    }
                },
                None => None,
            }
        } else if self.chunk(j).is_some() {
            match self.identifier(j) {
                Some((name, k)) => {
                    let ghost before = names.names();
                    let token = names.intern(name.as_str());
                    proof {
                        let after = names.names();
                        lemma_position(before, name@);
                        lemma_position(after, name@);
                        if !before.contains(name@) {
                            assert(after == before.push(name@));
                            assert(after[before.len() as int] == name@);
                            assert(after.contains(name@));
                            let p = position(after, name@);
                            if p < before.len() {
                                assert(before[p as int] == after[p as int]);
                                assert(before.contains(name@));
                            }
                            assert(p == before.len());
                        }
                        assert(token == Interner::token_of(after, name@));
                        assert(denotes(Expr::Token(token), Ast::Name(name@), after));
                    }
                    Some((Expr::Token(token), self.spaces(k)))
                },
                None => None,
            }
        } else {
            let found = self.literal(j);
            assert(parsed(found, literal_at(self.chars@, j as int), names.names()));
            match found {
                Some((e, k)) => Some((e, self.spaces(k))),
                None => None,
            }
        }
    }

    /// The expression with signs in front that begins at `i`, and its end.
    fn unary(&self, names: &mut Interner, i: usize) -> (r: Option<(Expr, usize)>)
        requires
            self.wf(),
            i <= self.chars@.len(),
        ensures
            old(names).names().is_prefix_of(final(names).names()),
            parsed(r, unary_at(self.chars@, i as int), final(names).names()),
            r matches Some((_, j)) ==> i <= j <= self.chars@.len(),
        decreases self.chars@.len() - i, 9nat,
    {
        let j = self.spaces(i);
        let k = self.prefixes(j);
        proof {
            lemma_skips(self.chars@, j as int, 0);
        }
        match self.term(names, k) {
            Some((e, end)) => {
                let ghost a = term_at(self.chars@, k as int)->Some_0.0;
                Some((self.prefix(j, k, e, Ghost(a), Ghost(names.names())), end))
            },
            None => None,
        }
    }

    /// Where a search for a sign ends that finds none at `i`.
    fn miss(&self, i: usize) -> (j: usize)
        requires
            i <= self.chars@.len(),
        ensures
            j == op_miss(self.chars@, i as int),
            i <= j <= self.chars@.len(),
    {
        if self.is(i, '=') || self.is(i, '!') || self.is(i, '&') || self.is(i, '|') {
            if i + 1 < self.chars.len() {
                i + 2
            } else {
                i + 1
            }
        } else {
            i
        }
    }

    /// The expression that begins with `left` and goes on at `i` with signs of the level
    /// `min` and above, and its end.
    fn rest(
        &self,
        names: &mut Interner,
        i: usize,
        min: usize,
        left: Expr,
        Ghost(a): Ghost<Ast>,
    ) -> (r: Option<(Expr, usize)>)
        requires
            self.wf(),
            i <= self.chars@.len(),
            min <= 3,
            denotes(left, a, old(names).names()),
        ensures
            old(names).names().is_prefix_of(final(names).names()),
            parsed(r, rest_at(self.chars@, i as int, min as nat, a), final(names).names()),
            r matches Some((_, end)) ==> i <= end <= self.chars@.len(),
        decreases self.chars@.len() - i, 4 - min,
    {
        match self.sign(i) {
            None => Some((left, self.miss(i))),
            Some((sign, k)) => {
                if sign.level() < min {
                    return Some((left, i));
                }
                let ghost before = names.names();
                let (right, q) = match self.unary(names, k) {
                    Some(found) => found,
                    None => {
                        return None;
                    },
                };
                let ghost b = unary_at(self.chars@, k as int)->Some_0.0;
                let ghost between = names.names();
                let (grown, end) = match self.right(names, q, sign.level(), right, Ghost(b)) {
                    Some(found) => found,
                    None => {
                        return None;
                    },
                };
                let ghost c = right_at(
                    self.chars@,
                    q as int,
                    sign.spec_level() as nat,
                    b,
                )->Some_0.0;
                proof {
                    lemma_denotes_kept(left, a, before, names.names());
                }
                let both = op(left, sign, grown);
                let ghost ab = Ast::Binary(sign, Box::new(a), Box::new(c));
                assert(denotes(both, ab, names.names()));
                self.rest(names, end, min, both, Ghost(ab))
            },
        }
    }

    /// The expression on the right of a sign of the level `level` that begins with `right`
    /// and goes on at `q`, and its end.
    fn right(
        &self,
        names: &mut Interner,
        q: usize,
        level: usize,
        right: Expr,
        Ghost(a): Ghost<Ast>,
    ) -> (r: Option<(Expr, usize)>)
        requires
            self.wf(),
            q <= self.chars@.len(),
            level <= 3,
            denotes(right, a, old(names).names()),
        ensures
            old(names).names().is_prefix_of(final(names).names()),
            parsed(r, right_at(self.chars@, q as int, level as nat, a), final(names).names()),
            r matches Some((_, end)) ==> q <= end <= self.chars@.len(),
        decreases self.chars@.len() - q, 4 - level,
    {
        match self.sign(q) {
            None => Some((right, self.miss(q))),
            Some((sign, _)) => {
                if sign.level() > level {
                    match self.rest(names, q, sign.level(), right, Ghost(a)) {
                        Some((grown, end)) => {
                            let ghost b = rest_at(
                                self.chars@,
                                q as int,
                                sign.spec_level() as nat,
                                a,
                            )->Some_0.0;
                            if end > q {
                                self.right(names, end, level, grown, Ghost(b))
                            } else {
                                None
                            }
                        },
                        None => None,
                    }
                } else {
                    Some((right, q))
                }
            },
        }
    }

    /// The expression that begins at `i`, and its end.
    fn whole(&self, names: &mut Interner, i: usize) -> (r: Option<(Expr, usize)>)
        requires
            self.wf(),
            i <= self.chars@.len(),
        ensures
            old(names).names().is_prefix_of(final(names).names()),
            parsed(r, expression_at(self.chars@, i as int), final(names).names()),
            r matches Some((_, j)) ==> i <= j <= self.chars@.len(),
        decreases self.chars@.len() - i, 10nat,
    {
        match self.unary(names, i) {
            Some((e, j)) => {
                let ghost a = unary_at(self.chars@, i as int)->Some_0.0;
                self.rest(names, j, 0, e, Ghost(a))
            },
            None => None,
        }
    }
}

/// Reads a filter expression from the beginning of `text`, and gives the names in it
/// their tokens in `names`. The answer is the expression and the number of characters
/// that the reading takes; what follows is not looked at. There is no answer where the
/// text does not begin with an expression.
pub fn expression(text: &str, names: &mut Interner) -> (r: Option<(Expr, usize)>)
    ensures
        old(names).names().is_prefix_of(final(names).names()),
        parsed(r, expression_of(text@), final(names).names()),
        r matches Some((_, end)) ==> end <= text@.len(),
{
    let input = Input::new(text);
    input.whole(names, 0)
}

} // verus!
