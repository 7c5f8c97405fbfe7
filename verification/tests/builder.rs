use stacklang::Code;
use stacklang::Sub;
use stacklang::ST;

#[test]
fn lit_emits_load() {
    let code: Vec<Code> = ST::lit(5);
    assert_eq!(code, vec![Code::Load(5)]);
}

#[test]
fn neg_appends_neg() {
    let code: Vec<Code> = ST::neg(ST::lit(5));
    assert_eq!(code, vec![Code::Load(5), Code::Neg]);
}

#[test]
fn add_emits_left_then_right() {
    let code: Vec<Code> = ST::add(ST::lit(3), ST::lit(4));
    assert_eq!(code, vec![Code::Load(3), Code::Load(4), Code::Add]);
}

#[test]
fn get_emits_get() {
    let code: Vec<Code> = ST::get("v".to_string());
    assert_eq!(code, vec![Code::Get("v".to_string())]);
}

#[test]
fn set_appends_store() {
    let code: Vec<Code> = ST::set("v".to_string(), ST::lit(2));
    assert_eq!(code, vec![Code::Load(2), Code::Store("v".to_string())]);
}

#[test]
fn block_drops_all_but_last() {
    let code: Vec<Code> = ST::block(vec![ST::lit(1), ST::lit(2), ST::lit(3)]);
    assert_eq!(
        code,
        vec![
            Code::Load(1),
            Code::Drop,
            Code::Load(2),
            Code::Drop,
            Code::Load(3),
        ]
    );
}

#[test]
fn block_of_one_adds_nothing() {
    let code: Vec<Code> = ST::block(vec![ST::lit(5)]);
    assert_eq!(code, vec![Code::Load(5)]);
}

#[test]
fn sub_emits_add_of_negated_right() {
    let code: Vec<Code> = Sub::sub(ST::lit(8), ST::lit(3));
    assert_eq!(
        code,
        vec![Code::Load(8), Code::Load(3), Code::Neg, Code::Add]
    );
}
