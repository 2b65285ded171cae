use numlang::opt::while_unroll::{apply_step, StepOp};

#[test]
fn step_division_rounds_toward_zero() {
    assert_eq!(apply_step(7, StepOp::Div(2)), 3);
    assert_eq!(apply_step(-7, StepOp::Div(2)), -3);
    assert_eq!(apply_step(7, StepOp::Div(-2)), -3);
    assert_eq!(apply_step(-7, StepOp::Div(-2)), 3);
}

#[test]
fn step_shift_rounds_down() {
    assert_eq!(apply_step(7, StepOp::Shr(1)), 3);
    assert_eq!(apply_step(-7, StepOp::Shr(1)), -4);
    assert_eq!(apply_step(1024, StepOp::Shr(10)), 1);
    assert_eq!(apply_step(-1, StepOp::Shr(63)), -1);
}

#[test]
fn step_add_and_sub() {
    assert_eq!(apply_step(10, StepOp::Sub(3)), 7);
    assert_eq!(apply_step(10, StepOp::Add(3)), 13);
    assert_eq!(apply_step(apply_step(41, StepOp::Add(5)), StepOp::Sub(5)), 41);
}
