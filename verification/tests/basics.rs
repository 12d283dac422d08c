use guessing_game::basics::{f1, f4};

#[test]
fn f1_returns_five() {
    assert_eq!(f1(), 5);
}

#[test]
fn f4_adds_one() {
    assert_eq!(f4(5), 6);
    assert_eq!(f4(-1), 0);
}

#[test]
fn f4_takes_a_block_expression() {
    let r = f4({
        let x = 5;
        x + 1
    });
    assert_eq!(r, 7);
}
