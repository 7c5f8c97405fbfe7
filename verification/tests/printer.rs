use stacklang::Source;
use stacklang::Sub;
use stacklang::ST;

#[test]
fn lit_renders_decimal() {
    let s: Source = ST::lit(5);
    assert_eq!(s.as_text(), "5");
    let z: Source = ST::lit(0);
    assert_eq!(z.as_text(), "0");
    let n: Source = ST::lit(-12);
    assert_eq!(n.as_text(), "-12");
    let wide: Source = ST::lit(9_876_543_210);
    assert_eq!(wide.as_text(), "9876543210");
}

#[test]
fn lit_renders_extremes() {
    let lo: Source = ST::lit(isize::MIN);
    assert_eq!(lo.as_text(), format!("{}", isize::MIN));
    let hi: Source = ST::lit(isize::MAX);
    assert_eq!(hi.as_text(), format!("{}", isize::MAX));
}

#[test]
fn neg_prefixes_minus() {
    let s: Source = ST::neg(ST::lit(5));
    assert_eq!(s.as_text(), "-5");
    let t: Source = ST::neg(ST::add(ST::lit(1), ST::lit(2)));
    assert_eq!(t.as_text(), "-(1 + 2)");
}

#[test]
fn add_renders_infix() {
    let s: Source = ST::add(ST::lit(3), ST::lit(4));
    assert_eq!(s.as_text(), "(3 + 4)");
}

#[test]
fn sub_renders_infix() {
    let s: Source = Sub::sub(ST::lit(10), ST::lit(3));
    assert_eq!(s.as_text(), "(10 - 3)");
}

#[test]
fn get_renders_name() {
    let s: Source = ST::get("y".to_string());
    assert_eq!(s.as_text(), "y");
}

#[test]
fn set_renders_assignment() {
    let s: Source = ST::set("x".to_string(), ST::lit(5));
    assert_eq!(s.as_text(), "(x = 5)");
}

#[test]
fn block_indents_each_expression() {
    let s: Source = ST::block(vec![ST::lit(5)]);
    assert_eq!(s.as_text(), "{\n    5\n}");
    let t: Source = ST::block(vec![
        ST::set("x".to_string(), ST::lit(1)),
        ST::get("x".to_string()),
    ]);
    assert_eq!(t.as_text(), "{\n    (x = 1)\n    x\n}");
}

#[test]
fn nested_block_indents_deeper() {
    let s: Source = ST::block(vec![ST::block(vec![ST::lit(1)]), ST::lit(2)]);
    assert_eq!(s.as_text(), "{\n    {\n        1\n    }\n    2\n}");
}

#[test]
fn distinct_shapes_render_distinctly() {
    let a: Source = ST::add(ST::neg(ST::lit(1)), ST::lit(2));
    let b: Source = ST::neg(ST::add(ST::lit(1), ST::lit(2)));
    assert_ne!(a.as_text(), b.as_text());
    let c: Source = Sub::sub(ST::lit(1), ST::lit(2));
    let d: Source = ST::add(ST::lit(1), ST::neg(ST::lit(2)));
    assert_ne!(c.as_text(), d.as_text());
}
