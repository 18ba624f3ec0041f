use portos_kernel::label::Label;

#[test]
fn join_is_union_and_leq_is_inclusion() {
    let a = Label::with_integ("web:a");
    let b = Label::with_conf("secret:resume");
    let j = a.join(&b);
    assert!(a.leq(&j) && b.leq(&j));
    assert!(!j.leq(&a));
    assert!(Label::public_trusted().leq(&a));
}

#[test]
fn join_commutative_associative_idempotent() {
    let a = Label::with_integ("x");
    let b = Label::with_integ("y");
    let c = Label::with_conf("z");
    assert_eq!(a.join(&b), b.join(&a));
    assert_eq!(a.join(&b).join(&c), a.join(&b.join(&c)));
    assert_eq!(a.join(&a), a);
}

#[test]
fn only_the_bottom_is_public_and_trusted() {
    assert!(Label::public_trusted().is_public_trusted());
    assert!(Label::default().is_public_trusted());
    assert!(!Label::with_conf("s").is_public_trusted());
    assert!(!Label::with_integ("s").is_public_trusted());
}
