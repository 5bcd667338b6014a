use outline_shaping::ast::{make_horizontal_group, make_vertical_group, Expr};
use outline_shaping::tokenizer::Tok;

fn sign(cp: u32) -> Box<Expr> {
    Box::new(Expr::Sign(Tok::Sign(cp)))
}

fn sign_of(expr: &Expr) -> u32 {
    match expr {
        Expr::Sign(Tok::Sign(cp)) => *cp,
        _ => panic!("not a sign"),
    }
}

#[test]
fn horizontal_group_starts_with_the_first_member() {
    let group = make_horizontal_group(sign(1), vec![sign(2), sign(3)]);
    match *group {
        Expr::Horizontal(members) => {
            assert_eq!(members.len(), 3);
            assert_eq!(sign_of(&members[0]), 1);
            assert_eq!(sign_of(&members[1]), 2);
            assert_eq!(sign_of(&members[2]), 3);
        }
        _ => panic!("not a row"),
    }
}

#[test]
fn vertical_group_starts_with_the_first_member() {
    let group = make_vertical_group(sign(7), vec![sign(8)]);
    match *group {
        Expr::Vertical(members) => {
            assert_eq!(members.len(), 2);
            assert_eq!(sign_of(&members[0]), 7);
            assert_eq!(sign_of(&members[1]), 8);
        }
        _ => panic!("not a stack"),
    }
}

#[test]
fn group_of_one_holds_that_one() {
    let row = make_horizontal_group(sign(5), vec![]);
    assert!(matches!(&*row, Expr::Horizontal(m) if m.len() == 1 && sign_of(&m[0]) == 5));
    let stack = make_vertical_group(sign(6), vec![]);
    assert!(matches!(&*stack, Expr::Vertical(m) if m.len() == 1 && sign_of(&m[0]) == 6));
}
