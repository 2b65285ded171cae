use numlang::ir::{BlockId, Instruction, IrOp, Operand, ValueId};
use numlang::typecheck::types::Type;
use numlang::ir::format_ir;
use numlang::ir::lower::lower_to_ir;
use numlang::parser::parse;
use numlang::token::tokenize;
use numlang::typecheck::typecheck;

#[test]
fn test_ir_lowering_arithmetic() {
    let src = r#"
        fn compute(a: f64, b: f64) -> f64 {
            let sum: f64 = a + b;
            let product: f64 = sum * 2.0;
            return product;
        }
    "#;

    let tokens = tokenize(src).unwrap();
    let ast = parse(&tokens).unwrap();
    let typed = typecheck(&ast).unwrap();
    let ir = lower_to_ir(&typed);

    assert_eq!(ir.functions.len(), 1);
    let func = &ir.functions[0];
    assert_eq!(func.name, "compute");
    assert_eq!(func.params.len(), 2);
    assert!(!func.blocks.is_empty());

    let formatted = format_ir(&ir);
    assert!(formatted.contains("function compute"));
    assert!(formatted.contains("f64.add"));
    assert!(formatted.contains("f64.mul"));
    assert!(formatted.contains("ret"));
}

#[test]
fn test_ir_lowering_control_flow() {
    let src = r#"
        fn abs_val(x: i64) -> i64 {
            if x < 0 {
                return -x;
            } else {
                return x;
            }
        }

        fn count_up(limit: i64) {
            let mut i: i64 = 0;
            while i < limit {
                i = i + 1;
            }
        }
    "#;

    let tokens = tokenize(src).unwrap();
    let ast = parse(&tokens).unwrap();
    let typed = typecheck(&ast).unwrap();
    let ir = lower_to_ir(&typed);

    assert_eq!(ir.functions.len(), 2);

    let formatted = format_ir(&ir);
    assert!(formatted.contains("brif"));
    assert!(formatted.contains("br bb"));
}

#[test]
fn lowering_gives_exact_instructions() {
    let src = "fn inc(a: i64) -> i64 { let b: i64 = a + 1; return b; }";
    let tokens = tokenize(src).unwrap();
    let ast = parse(&tokens).unwrap();
    let typed = typecheck(&ast).unwrap();
    let ir = lower_to_ir(&typed);

    let func = &ir.functions[0];
    assert_eq!(func.params[0].val, ValueId(0));
    assert_eq!(func.blocks.len(), 1);
    assert_eq!(func.blocks[0].id, BlockId(0));
    assert_eq!(
        func.blocks[0].instructions,
        vec![
            Instruction::Binary {
                dest: ValueId(1),
                op: IrOp::Add,
                ty: Type::I64,
                left: Operand::Value(ValueId(0)),
                right: Operand::IntConst(1, Type::I64),
            },
            Instruction::Assign {
                dest: ValueId(2),
                operand: Operand::Value(ValueId(1)),
                ty: Type::I64,
            },
            Instruction::Return { val: Some(Operand::Value(ValueId(2))) },
        ]
    );
}

#[test]
fn lowering_adds_return_to_void_body() {
    let src = "fn nothing() { }";
    let tokens = tokenize(src).unwrap();
    let ast = parse(&tokens).unwrap();
    let typed = typecheck(&ast).unwrap();
    let ir = lower_to_ir(&typed);
    assert_eq!(ir.functions[0].blocks.len(), 1);
    assert_eq!(ir.functions[0].blocks[0].instructions, vec![Instruction::Return { val: None }]);
}
