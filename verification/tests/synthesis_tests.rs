use lib::synthesis::{BinOp, Expr};

fn x_times_x_plus_one() -> Expr<f64> {
    Expr::Add(Box::new(Expr::Mul(Box::new(Expr::X), Box::new(Expr::X))), Box::new(Expr::Const(1.0)))
}

fn show(e: &Expr<f64>) -> String {
    match e {
        Expr::X => "x".to_string(),
        Expr::Const(c) => format!("{c}"),
        Expr::Add(a, b) => format!("({} + {})", show(a), show(b)),
        Expr::Sub(a, b) => format!("({} - {})", show(a), show(b)),
        Expr::Mul(a, b) => format!("({} * {})", show(a), show(b)),
        Expr::Neg(a) => format!("(-{})", show(a)),
    }
}

#[test]
fn size_counts_nodes() {
    assert_eq!(x_times_x_plus_one().size(), 5);
    assert_eq!(Expr::<f64>::Neg(Box::new(Expr::X)).size(), 2);
}

#[test]
fn subtrees_in_preorder() {
    let e = x_times_x_plus_one();
    let expected = ["((x * x) + 1)", "(x * x)", "x", "x", "1"];
    for (i, want) in expected.iter().enumerate() {
        let mut cur = 0;
        let s = e.subtree_at(i, &mut cur).unwrap();
        assert_eq!(show(&s), *want);
        assert_eq!(cur, i + 1);
    }
    let mut cur = 0;
    assert!(e.subtree_at(5, &mut cur).is_none());
    assert_eq!(cur, 5);
    let mut from_two = 2;
    assert_eq!(show(&e.subtree_at(3, &mut from_two).unwrap()), "(x * x)");
}

#[test]
fn replace_then_read_back() {
    let e = x_times_x_plus_one();
    let repl = Expr::Neg(Box::new(Expr::Const(2.0)));
    let mut cur = 0;
    let r = e.replace_at(2, &repl, &mut cur);
    assert_eq!(show(&r), "(((-2) * x) + 1)");
    assert_eq!(cur, 5);
    let mut c2 = 0;
    assert_eq!(show(&r.subtree_at(2, &mut c2).unwrap()), "(-2)");
    assert_eq!(r.size(), 6);
    let mut c3 = 0;
    let whole = e.replace_at(1, &Expr::X, &mut c3);
    assert_eq!(show(&whole), "(x + 1)");
    assert_eq!(c3, 3);
    let mut c4 = 0;
    let same = e.replace_at(9, &Expr::X, &mut c4);
    assert_eq!(show(&same), show(&e));
    assert_eq!(c4, 5);
}

#[test]
fn grow_wraps_the_chosen_subtree() {
    let e = x_times_x_plus_one();
    let g = e.grow_at(1, BinOp::Sub, Expr::Const(0.5));
    assert_eq!(show(&g), "(((x * x) - 0.5) + 1)");
    assert_eq!(g.size(), 7);
    let root = Expr::<f64>::X.grow_at(0, BinOp::Mul, Expr::X);
    assert_eq!(show(&root), "(x * x)");
}

#[test]
fn putting_back_a_subtree_changes_nothing() {
    let e = x_times_x_plus_one();
    for i in 0..e.size() {
        let mut c = 0;
        let sub = e.subtree_at(i, &mut c).unwrap();
        let mut c2 = 0;
        assert_eq!(show(&e.replace_at(i, &sub, &mut c2)), show(&e));
    }
}
