use genet::filter::{expression, op, Expr, Op};
use genet::token::Interner;
use genet::variant::{BigInt, Variant};

fn parse(text: &str) -> Option<(Expr, usize)> {
    let mut names = Interner::new();
    expression(text, &mut names)
}

fn name(names: &mut Interner, text: &str) -> Expr {
    Expr::Token(names.intern(text))
}

fn number(n: u64) -> Expr {
    Expr::Literal(Variant::UInt64(n))
}

fn boxed(e: Expr) -> Box<Expr> {
    Box::new(e)
}

#[test]
fn parser_decode() {
    let mut names = Interner::new();
    let fi = "tcp && 100 == tcp";
    let parsed = expression(fi, &mut names);
    println!("{:?}", parsed);
    let tcp = names.intern("tcp");
    assert_eq!(
        parsed,
        Some((
            Expr::LogicalAnd(
                boxed(Expr::Token(tcp)),
                boxed(Expr::CmpEq(boxed(number(100)), boxed(Expr::Token(tcp))))
            ),
            17
        ))
    );
}

#[test]
fn signs_bind_by_their_level_and_from_the_left() {
    let mut names = Interner::new();
    let parsed = expression("a || b && c", &mut names).unwrap().0;
    let (a, b, c) = (
        name(&mut names, "a"),
        name(&mut names, "b"),
        name(&mut names, "c"),
    );
    assert_eq!(
        parsed,
        Expr::LogicalOr(boxed(a), boxed(Expr::LogicalAnd(boxed(b), boxed(c))))
    );

    let mut names = Interner::new();
    let parsed = expression("a < b == c > d", &mut names).unwrap().0;
    let a = name(&mut names, "a");
    let b = name(&mut names, "b");
    let c = name(&mut names, "c");
    let d = name(&mut names, "d");
    assert_eq!(
        parsed,
        Expr::CmpEq(
            boxed(Expr::CmpLt(boxed(a), boxed(b))),
            boxed(Expr::CmpGt(boxed(c), boxed(d)))
        )
    );

    let mut names = Interner::new();
    let parsed = expression("a != b == c", &mut names).unwrap().0;
    let a = name(&mut names, "a");
    let b = name(&mut names, "b");
    let c = name(&mut names, "c");
    assert_eq!(
        parsed,
        Expr::CmpEq(boxed(Expr::CmpNotEq(boxed(a), boxed(b))), boxed(c))
    );

    let mut names = Interner::new();
    let parsed = expression("a && b || c && d", &mut names).unwrap().0;
    let a = name(&mut names, "a");
    let b = name(&mut names, "b");
    let c = name(&mut names, "c");
    let d = name(&mut names, "d");
    assert_eq!(
        parsed,
        Expr::LogicalOr(
            boxed(Expr::LogicalAnd(boxed(a), boxed(b))),
            boxed(Expr::LogicalAnd(boxed(c), boxed(d)))
        )
    );
}

#[test]
fn brackets_go_first() {
    let mut names = Interner::new();
    let (parsed, end) = expression(" ( a || b ) && ( c ) ", &mut names).unwrap();
    let a = name(&mut names, "a");
    let b = name(&mut names, "b");
    let c = name(&mut names, "c");
    assert_eq!(
        parsed,
        Expr::LogicalAnd(boxed(Expr::LogicalOr(boxed(a), boxed(b))), boxed(c))
    );
    assert_eq!(end, 21);
    assert_eq!(parse("((a)"), None);
    assert_eq!(parse("()"), None);
    assert_eq!(parse("(a b)"), None);
    assert_eq!(parse("((7))"), Some((number(7), 5)));
}

#[test]
fn signs_in_front() {
    let mut names = Interner::new();
    let parsed = expression("!-+a", &mut names).unwrap().0;
    let a = name(&mut names, "a");
    assert_eq!(
        parsed,
        Expr::LogicalNegation(boxed(Expr::UnaryNegation(boxed(Expr::UnaryPlus(boxed(a))))))
    );
    assert_eq!(
        parse(" ! 5"),
        Some((Expr::LogicalNegation(boxed(number(5))), 4))
    );
    assert_eq!(parse("! !a"), None);
    assert_eq!(
        parse("-1 < -2").unwrap().0,
        Expr::CmpLt(
            boxed(Expr::UnaryNegation(boxed(number(1)))),
            boxed(Expr::UnaryNegation(boxed(number(2))))
        )
    );
}

#[test]
fn numbers_in_four_radixes() {
    assert_eq!(parse("100"), Some((number(100), 3)));
    assert_eq!(parse("0"), Some((number(0), 1)));
    assert_eq!(parse("09"), Some((number(9), 2)));
    assert_eq!(parse("0x1F"), Some((number(31), 4)));
    assert_eq!(parse("0xff"), Some((number(255), 4)));
    assert_eq!(parse("0o17"), Some((number(15), 4)));
    assert_eq!(parse("0b101"), Some((number(5), 5)));
    assert_eq!(parse("18446744073709551615"), Some((number(u64::MAX), 20)));
    assert_eq!(parse("0x"), None);
    assert_eq!(parse("0xg"), None);
    assert_eq!(parse("0o8"), None);
    assert_eq!(parse("0b2"), None);
    assert_eq!(parse("0X1"), Some((number(0), 1)));
    assert_eq!(parse("12ab"), Some((number(12), 2)));
    assert_eq!(parse("0b1012"), Some((number(5), 5)));
}

#[test]
fn numbers_beyond_64_bits_stay_whole() {
    let expected = Expr::Literal(Variant::BigInt(BigInt::new(false, vec![1, 0, 0, 0, 0, 0, 0, 0, 0])));
    assert_eq!(parse("18446744073709551616"), Some((expected, 20)));
    let mut bytes = vec![1u8];
    bytes.extend_from_slice(&[0; 16]);
    let expected = Expr::Literal(Variant::BigInt(BigInt::new(false, bytes)));
    assert_eq!(
        parse("0x100000000000000000000000000000000"),
        Some((expected, 35))
    );
}

#[test]
fn names_are_made_of_their_parts() {
    let mut names = Interner::new();
    let (parsed, end) = expression("tcp.src_port2 ", &mut names).unwrap();
    assert_eq!(end, 14);
    assert_eq!(parsed, Expr::Token(names.find("tcpsrc_port2").unwrap()));
    assert!(names.find("tcp.src_port2").is_none());
    assert_eq!(names.len(), 1);

    let mut names = Interner::new();
    let parsed = expression("_a1.b.c9", &mut names).unwrap().0;
    assert_eq!(parsed, Expr::Token(names.find("_a1bc9").unwrap()));

    let mut names = Interner::new();
    let parsed = expression("\u{e9}t\u{e9}", &mut names).unwrap();
    assert_eq!(parsed, (Expr::Token(names.find("\u{e9}t\u{e9}").unwrap()), 3));

    assert_eq!(parse("a."), None);
    assert_eq!(parse("a.1"), None);
    assert_eq!(parse("a..b"), None);
    assert_eq!(parse(".a"), None);
    assert_eq!(parse("1a").unwrap().1, 1);
}

#[test]
fn a_word_of_truth_is_a_name() {
    let mut names = Interner::new();
    let parsed = expression("true && false", &mut names).unwrap().0;
    let t = name(&mut names, "true");
    let f = name(&mut names, "false");
    assert_eq!(parsed, Expr::LogicalAnd(boxed(t), boxed(f)));
}

#[test]
fn the_same_name_has_the_same_token() {
    let mut names = Interner::new();
    let before = names.intern("udp");
    let parsed = expression("udp == tcp || udp", &mut names).unwrap().0;
    let tcp = names.find("tcp").unwrap();
    assert_eq!(names.len(), 2);
    assert_eq!(
        parsed,
        Expr::LogicalOr(
            boxed(Expr::CmpEq(boxed(Expr::Token(before)), boxed(Expr::Token(tcp)))),
            boxed(Expr::Token(before))
        )
    );
}

#[test]
fn what_follows_an_expression_is_left() {
    let mut names = Interner::new();
    assert_eq!(
        expression("a  b", &mut names),
        Some((Expr::Token(names.find("a").unwrap_or(genet::token::Token::from(1))), 3))
    );
    assert_eq!(parse("5)"), Some((number(5), 1)));
    assert_eq!(parse("5 #"), Some((number(5), 2)));
}

#[test]
fn half_a_sign_takes_the_next_character_with_it() {
    assert_eq!(parse("5 & 6"), Some((number(5), 4)));
    assert_eq!(parse("5 = 6"), Some((number(5), 4)));
    assert_eq!(parse("5 ! 6"), Some((number(5), 4)));
    assert_eq!(parse("5 |6"), Some((number(5), 4)));
    assert_eq!(parse("5 |"), Some((number(5), 3)));
    assert_eq!(parse("5 = == 6"), Some((number(5), 4)));
    assert_eq!(
        parse("1 < 2 = == 3"),
        Some((
            Expr::CmpEq(
                boxed(Expr::CmpLt(boxed(number(1)), boxed(number(2)))),
                boxed(number(3))
            ),
            12
        ))
    );
    assert_eq!(
        parse("1 == 2 = < 3"),
        Some((
            Expr::CmpLt(
                boxed(Expr::CmpEq(boxed(number(1)), boxed(number(2)))),
                boxed(number(3))
            ),
            12
        ))
    );
    assert_eq!(
        parse("(1 < 2 = ) == 3"),
        Some((
            Expr::CmpEq(
                boxed(Expr::CmpLt(boxed(number(1)), boxed(number(2)))),
                boxed(number(3))
            ),
            15
        ))
    );
}

#[test]
fn a_sign_needs_an_expression_behind_it() {
    assert_eq!(parse("a &&"), None);
    assert_eq!(parse("a == "), None);
    assert_eq!(parse("a < )"), None);
    assert_eq!(parse(""), None);
    assert_eq!(parse("   "), None);
    assert_eq!(parse("&& a"), None);
    assert_eq!(parse("#"), None);
}

#[test]
fn less_or_equal_is_read_as_less() {
    assert_eq!(parse("a <= b"), None);
    assert_eq!(parse("a >= b"), None);
    assert_eq!(
        parse("1 <2"),
        Some((Expr::CmpLt(boxed(number(1)), boxed(number(2))), 4))
    );
    assert_eq!(
        parse("1>  2  "),
        Some((Expr::CmpGt(boxed(number(1)), boxed(number(2))), 7))
    );
}

#[test]
fn expressions_are_joined_by_a_sign() {
    assert_eq!(
        op(number(1), Op::Lte, number(2)),
        Expr::CmpLte(boxed(number(1)), boxed(number(2)))
    );
    assert_eq!(
        op(number(1), Op::Gte, number(2)),
        Expr::CmpGte(boxed(number(1)), boxed(number(2)))
    );
    assert_eq!(
        op(number(1), Op::NotEq, number(2)),
        Expr::CmpNotEq(boxed(number(1)), boxed(number(2)))
    );
    assert_eq!(
        op(number(1), Op::Or, number(2)),
        Expr::LogicalOr(boxed(number(1)), boxed(number(2)))
    );
    assert_eq!(Op::Or.level(), 0);
    assert_eq!(Op::And.level(), 1);
    assert_eq!(Op::Eq.level(), 2);
    assert_eq!(Op::NotEq.level(), 2);
    assert_eq!(Op::Lt.level(), 3);
    assert_eq!(Op::Gte.level(), 3);
}
