use genet::token::{Interner, Token};

#[test]
fn null_token_is_zero() {
    assert_eq!(Token::null().index(), 0);
    assert!(Token::null().is_null());
    assert!(!Token::from(1).is_null());
    assert_eq!(Token::from(123).index(), 123);
    assert_eq!(Token::from(5), Token::from(5));
    assert_ne!(Token::from(5), Token::from(6));
}

#[test]
fn interning_gives_numbers_in_order() {
    let mut names = Interner::new();
    assert_eq!(names.len(), 0);
    assert_eq!(names.intern("eth"), Token::from(1));
    assert_eq!(names.intern("ipv4"), Token::from(2));
    assert_eq!(names.intern("eth"), Token::from(1));
    assert_eq!(names.intern(""), Token::null());
    assert_eq!(names.len(), 2);
}

#[test]
fn find_does_not_add() {
    let mut names = Interner::new();
    assert_eq!(names.find("tcp"), None);
    assert_eq!(names.find(""), Some(Token::null()));
    let tcp = names.intern("tcp");
    assert_eq!(names.find("tcp"), Some(tcp));
    assert_eq!(names.find("udp"), None);
    assert_eq!(names.len(), 1);
}

#[test]
fn names_come_back() {
    let mut names = Interner::new();
    let a = names.intern("@data:ipv4");
    let b = names.intern("eth.src");
    assert_eq!(names.name(a), Some("@data:ipv4".to_string()));
    assert_eq!(names.name(b), Some("eth.src".to_string()));
    assert_eq!(names.name(Token::null()), Some(String::new()));
    assert_eq!(names.name(Token::from(3)), None);
}

#[test]
fn a_name_keeps_its_token_while_the_table_grows() {
    let mut names = Interner::new();
    let first = names.intern("first");
    for i in 0..50 {
        names.intern(&format!("name{}", i));
    }
    assert_eq!(names.intern("first"), first);
    assert_eq!(names.find("name49"), Some(Token::from(51)));
}

#[test]
fn different_names_have_different_tokens() {
    let mut names = Interner::new();
    let all = names.intern_all(&["a", "b", "a", "", "c"]);
    assert_eq!(
        all,
        vec![
            Token::from(1),
            Token::from(2),
            Token::from(1),
            Token::null(),
            Token::from(3)
        ]
    );
}
