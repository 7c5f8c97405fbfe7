use stacklang::Code;
use stacklang::Fault;
use stacklang::Sub;
use stacklang::ST;
use stacklang::VM;

#[test]
fn load_single_yields_value() {
    let code: Vec<Code> = ST::lit(42);
    let mut vm = VM::new(code);
    assert_eq!(vm.try_run(), Ok(42));
    assert!(vm.stack.is_empty());
}

#[test]
fn add_is_left_biased() {
    let code: Vec<Code> = ST::add(ST::lit(3), ST::lit(4));
    let mut vm = VM::new(code);
    assert_eq!(vm.run(), 7);
}

#[test]
fn sub_is_left_biased() {
    let code: Vec<Code> = Sub::sub(ST::lit(10), ST::lit(3));
    let mut vm = VM::new(code);
    assert_eq!(vm.run(), 7);
}

#[test]
fn sub_builds_the_code_of_add_neg() {
    let direct: Vec<Code> = Sub::sub(ST::lit(10), ST::lit(3));
    let spelled: Vec<Code> = ST::add(ST::lit(10), ST::neg(ST::lit(3)));
    assert_eq!(direct, spelled);
    let mut vm_direct = VM::new(direct);
    let mut vm_spelled = VM::new(spelled);
    assert_eq!(vm_direct.run(), vm_spelled.run());
}

#[test]
fn block_drops_intermediate_store_result() {
    let code: Vec<Code> = ST::block(vec![
        ST::set("x".to_string(), ST::lit(5)),
        ST::add(ST::get("x".to_string()), ST::lit(7)),
    ]);
    let mut vm = VM::new(code);
    assert_eq!(vm.run(), 12);
    assert!(vm.stack.is_empty());
}

#[test]
fn second_store_returns_prior_binding() {
    // A store pushes the previous binding, not the value written: the
    // block's value is what the second store pushed, the prior binding 1.
    let code: Vec<Code> = ST::block(vec![
        ST::set("x".to_string(), ST::lit(1)),
        ST::set("x".to_string(), ST::lit(9)),
    ]);
    let mut vm = VM::new(code);
    assert_eq!(vm.run(), 1);
}

#[test]
fn store_pushes_default_then_prior() {
    // Without the block's Drop between them, both pushed values stay on the
    // stack: the first Store pushes the default 0, the second pushes the
    // prior binding 1.
    let code = vec![
        Code::Load(1),
        Code::Store("x".to_string()),
        Code::Load(9),
        Code::Store("x".to_string()),
    ];
    let mut vm = VM::new(code);
    assert_eq!(vm.try_run(), Ok(1));
    assert_eq!(vm.stack, vec![0]);
}

#[test]
fn get_without_store_faults_unbound() {
    let code: Vec<Code> = ST::get("y".to_string());
    let mut vm = VM::new(code);
    assert_eq!(vm.try_run(), Err(Fault::Unbound));
}

#[test]
fn end_to_end_arithmetic() {
    let code: Vec<Code> = ST::add(ST::lit(8), ST::neg(Sub::sub(ST::lit(1), ST::lit(2))));
    let mut vm = VM::new(code);
    assert_eq!(vm.run(), 9);
}

#[test]
fn end_to_end_block_program() {
    let code: Vec<Code> = ST::block(vec![
        Sub::sub(ST::lit(8), ST::add(ST::lit(1), ST::lit(2))),
        ST::set("x".to_string(), ST::block(vec![ST::lit(5)])),
        ST::add(ST::get("x".to_string()), ST::lit(7)),
    ]);
    let mut vm = VM::new(code);
    assert_eq!(vm.run(), 12);
}

#[test]
fn neg_of_minimum_faults_overflow() {
    let code = vec![Code::Load(isize::MIN), Code::Neg];
    let mut vm = VM::new(code);
    assert_eq!(vm.try_run(), Err(Fault::Overflow));
}

#[test]
fn add_beyond_maximum_faults_overflow() {
    let code = vec![Code::Load(isize::MAX), Code::Load(1), Code::Add];
    let mut vm = VM::new(code);
    assert_eq!(vm.try_run(), Err(Fault::Overflow));
}

#[test]
fn add_on_short_stack_faults_underflow() {
    let code = vec![Code::Load(1), Code::Add];
    let mut vm = VM::new(code);
    assert_eq!(vm.try_run(), Err(Fault::Underflow));
}

#[test]
fn drop_on_empty_stack_faults_underflow() {
    let code = vec![Code::Drop];
    let mut vm = VM::new(code);
    assert_eq!(vm.try_run(), Err(Fault::Underflow));
}

#[test]
fn empty_program_faults_underflow() {
    let code: Vec<Code> = vec![];
    let mut vm = VM::new(code);
    assert_eq!(vm.try_run(), Err(Fault::Underflow));
}

#[test]
fn extreme_literal_runs_unchanged() {
    let code: Vec<Code> = ST::lit(isize::MIN);
    let mut vm = VM::new(code);
    assert_eq!(vm.try_run(), Ok(isize::MIN));
}

#[test]
fn neg_of_minimum_via_algebra_faults_overflow() {
    let code: Vec<Code> = ST::neg(ST::lit(isize::MIN));
    let mut vm = VM::new(code);
    assert_eq!(vm.try_run(), Err(Fault::Overflow));
}

#[test]
fn neg_negates() {
    let code: Vec<Code> = ST::neg(ST::lit(-7));
    let mut vm = VM::new(code);
    assert_eq!(vm.run(), 7);
}
