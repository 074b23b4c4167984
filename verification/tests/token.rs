use lox_vm::token::Precedence;

#[test]
fn tt() {
    let n = Precedence::Lowest;
    let f = Precedence::Factor;
    let p = Precedence::Primary;
    assert!(p >= f);
    assert!(f >= n);
}
