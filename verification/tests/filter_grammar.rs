use combine::parser::char::{alpha_num, digit, hex_digit, letter, oct_digit, spaces, string};
use combine::parser::function::parser;
use combine::{attempt, between, choice, many, many1, token, Parser};
use genet::filter::{expression, Expr};
use genet::token::Interner;
use genet::variant::{BigInt, Variant};
use num_traits::Num;
use std::cell::RefCell;
use std::rc::Rc;

type Names = Rc<RefCell<Interner>>;

fn big(digits: &str, radix: u32) -> Variant {
    let n = num_bigint::BigInt::from_str_radix(digits, radix).unwrap();
    let (sign, bytes) = n.to_bytes_be();
    Variant::BigInt(BigInt::new(sign == num_bigint::Sign::Minus, bytes)).shrink()
}

fn unsigned_integer<'a>() -> impl Parser<Input = &'a str, Output = Variant> {
    choice((
        attempt(string("0x"))
            .with(many1(hex_digit()))
            .map(|s: String| big(&s, 16)),
        attempt(string("0o"))
            .with(many1(oct_digit()))
            .map(|s: String| big(&s, 8)),
        attempt(string("0b"))
            .with(many1(token('0').or(token('1'))))
            .map(|s: String| big(&s, 2)),
        many1(digit()).map(|s: String| big(&s, 10)),
    ))
}

fn boolean<'a>() -> impl Parser<Input = &'a str, Output = bool> {
    string("true")
        .map(|_| true)
        .or(string("false").map(|_| false))
}

fn chunk<'a>() -> impl Parser<Input = &'a str, Output = String> {
    (
        many1(letter().or(token('_'))),
        many(alpha_num().or(token('_'))),
    )
        .map(|v: (String, String)| v.0 + &v.1)
}

fn member<'a>() -> impl Parser<Input = &'a str, Output = String> {
    token('.').with(chunk())
}

fn identifier<'a>(names: Names) -> impl Parser<Input = &'a str, Output = Expr> {
    (chunk(), many::<Vec<String>, _>(member())).map(move |v| {
        let mut id = v.0;
        for m in v.1 {
            id += &m;
        }
        Expr::Token(names.borrow_mut().intern(&id))
    })
}

fn literal<'a>() -> impl Parser<Input = &'a str, Output = Expr> {
    choice((
        boolean().map(|v| Variant::Bool(v)),
        unsigned_integer(),
    ))
    .map(|v| Expr::Literal(v))
}

fn term<'a>(names: Names) -> impl Parser<Input = &'a str, Output = Expr> {
    let inner = names.clone();
    spaces()
        .with(
            between(
                token('('),
                token(')'),
                parser(move |input| whole(inner.clone()).parse_stream(input)),
            )
            .or(identifier(names))
            .or(literal()),
        )
        .skip(spaces())
}

fn unary<'a>(names: Names) -> impl Parser<Input = &'a str, Output = Expr> {
    spaces().with(
        (
            many::<Vec<_>, _>(choice([string("!"), string("+"), string("-")])),
            term(names),
        )
            .map(|(ops, exp)| {
                ops.into_iter().rfold(exp, |acc, op| match op {
                    "!" => Expr::LogicalNegation(Box::new(acc)),
                    "+" => Expr::UnaryPlus(Box::new(acc)),
                    "-" => Expr::UnaryNegation(Box::new(acc)),
                    _ => unreachable!(),
                })
            }),
    )
}

fn join(l: Expr, op: &'static str, r: Expr) -> Expr {
    match op {
        "==" => Expr::CmpEq(Box::new(l), Box::new(r)),
        "!=" => Expr::CmpNotEq(Box::new(l), Box::new(r)),
        "<" => Expr::CmpLt(Box::new(l), Box::new(r)),
        ">" => Expr::CmpGt(Box::new(l), Box::new(r)),
        "<=" => Expr::CmpLte(Box::new(l), Box::new(r)),
        ">=" => Expr::CmpGte(Box::new(l), Box::new(r)),
        "&&" => Expr::LogicalAnd(Box::new(l), Box::new(r)),
        "||" => Expr::LogicalOr(Box::new(l), Box::new(r)),
        _ => unreachable!(),
    }
}

fn whole<'a>(names: Names) -> impl Parser<Input = &'a str, Output = Expr> {
    let op_parser = attempt(choice([
        string("<"),
        string("<="),
        string(">"),
        string(">="),
        string("=="),
        string("!="),
        string("&&"),
        string("||"),
    ]))
    .map(|op| {
        let prec = match op {
            "<" | "<=" | ">" | ">=" => 11,
            "==" | "!=" => 10,
            "&&" => 6,
            "||" => 5,
            _ => unreachable!(),
        };
        (
            op,
            combine_language::Assoc {
                precedence: prec,
                fixity: combine_language::Fixity::Left,
            },
        )
    })
    .skip(spaces());
    combine_language::expression_parser(unary(names), op_parser, join)
}

/// The expression at the beginning of `text` and the number of characters it takes, as
/// the combinators find them.
fn combined(text: &str) -> Option<(Expr, usize)> {
    let names = Rc::new(RefCell::new(Interner::new()));
    match whole(names).parse(text) {
        Ok((e, rest)) => {
            let taken = &text[..text.len() - rest.len()];
            Some((e, taken.chars().count()))
        }
        Err(_) => None,
    }
}

fn direct(text: &str) -> Option<(Expr, usize)> {
    let mut names = Interner::new();
    expression(text, &mut names)
}

#[test]
fn chosen_texts_are_read_as_the_combinators_read_them() {
    let texts = [
        "",
        " ",
        "a",
        "tcp && 100 == tcp",
        "a <= b",
        "a >= b",
        "a < b",
        "a<b>c",
        "a == b != c",
        "a || b && c || d",
        "a && (b || c)",
        "((a))",
        "(a",
        "a)",
        "()",
        "( a ) ",
        "!a",
        "!!a",
        "! !a",
        "-+!a",
        "- a",
        "-(a)",
        "a.b.c",
        "a.",
        "a..b",
        "a.1",
        "a .b",
        "_",
        "_1",
        "1_",
        "true",
        "false",
        "tru",
        "truex",
        "true.false",
        "0",
        "00",
        "0x",
        "0x1",
        "0xFfz",
        "0o",
        "0o78",
        "0b",
        "0b12",
        "0b0101",
        "0B1",
        "123456789012345678901234567890",
        "0xffffffffffffffffffff",
        "1 + 2",
        "1 - 2",
        "1 & 2",
        "1 && 2",
        "1 &&& 2",
        "1 | 2",
        "1 || || 2",
        "1 = 2",
        "1 == = 2",
        "1 ! 2",
        "1 != !2",
        "1 < < 2",
        "\t\n a \r\n == \t b \n",
        "a\u{a0}b",
        "\u{3000}a",
        "\u{e9}.\u{4e2d}9",
        "x\u{d7}y",
        "a == (b",
        "a == )",
        "(a) (b)",
        "a b",
        "a == b c",
    ];
    for text in texts.iter() {
        assert_eq!(direct(text), combined(text), "{:?}", text);
    }
}

#[test]
fn many_short_texts_are_read_as_the_combinators_read_them() {
    let letters: Vec<char> = "ab_ 01x9.()!+-<>=&|tf".chars().collect();
    let mut state: u64 = 0x2545_f491_4f6c_dd1d;
    let mut some = 0;
    let mut none = 0;
    for _ in 0..20000 {
        let mut text = String::new();
        state = state
            .wrapping_mul(6364136223846793005)
            .wrapping_add(1442695040888963407);
        let len = (state >> 60) as usize;
        for _ in 0..len {
            state = state
                .wrapping_mul(6364136223846793005)
                .wrapping_add(1442695040888963407);
            text.push(letters[(state >> 33) as usize % letters.len()]);
        }
        let found = direct(&text);
        assert_eq!(found, combined(&text), "{:?}", text);
        if found.is_some() {
            some += 1;
        } else {
            none += 1;
        }
    }
    assert!(some > 2500);
    assert!(none > 2500);
}

#[test]
fn many_texts_of_signs_are_read_as_the_combinators_read_them() {
    let letters: Vec<char> = "a1 ()<>=!&|".chars().collect();
    let mut state: u64 = 0x9e37_79b9_7f4a_7c15;
    for _ in 0..20000 {
        let mut text = String::new();
        state = state
            .wrapping_mul(6364136223846793005)
            .wrapping_add(1442695040888963407);
        let len = 4 + (state >> 60) as usize;
        for _ in 0..len {
            state = state
                .wrapping_mul(6364136223846793005)
                .wrapping_add(1442695040888963407);
            text.push(letters[(state >> 33) as usize % letters.len()]);
        }
        assert_eq!(direct(&text), combined(&text), "{:?}", text);
    }
}
