use c2rust_transpile::assembly::constraints::ArgDirSpec;
use c2rust_transpile::assembly::convert::{AsmConversion, Translation};
use c2rust_transpile::assembly::operands::{AsmOperand, CExprId};
use c2rust_transpile::assembly::statement::{
    AsmExpr, AsmOption, AsmStmt, CastOut, OperandPlace, OutPlace,
};
use c2rust_transpile::assembly::tokens::AsmToken;

fn op(constraints: &str, id: u64) -> AsmOperand {
    AsmOperand { constraints: constraints.to_string(), expression: CExprId(id) }
}

fn x86_64() -> Translation {
    Translation { translate_asm: true, target: "x86_64-unknown-linux-gnu".to_string() }
}

fn convert(
    volatile: bool,
    template: &str,
    inputs: &[AsmOperand],
    outputs: &[AsmOperand],
    clobbers: &[&str],
) -> AsmConversion {
    let clobbers: Vec<String> = clobbers.iter().map(|c| c.to_string()).collect();
    match x86_64().convert_asm(volatile, template, inputs, outputs, &clobbers) {
        Ok(c) => c,
        Err(e) => panic!("{:?}", e),
    }
}

fn refused(t: &Translation, template: &str, inputs: &[AsmOperand], outputs: &[AsmOperand]) -> String {
    match t.convert_asm(false, template, inputs, outputs, &[]) {
        Ok(c) => panic!("{:?}", c),
        Err(e) => e.cause().unwrap().clone(),
    }
}

fn shown(tokens: &[AsmToken]) -> Vec<String> {
    tokens
        .iter()
        .map(|t| match t {
            AsmToken::Punct(c) => c.to_string(),
            AsmToken::JointPunct(c) => format!("{}~", c),
            AsmToken::Ident(s) => s.clone(),
            AsmToken::Literal(s) => format!("{:?}", s),
            AsmToken::Value(e) => format!("{:?}", e),
            AsmToken::ParenLiteral(s) => format!("({:?})", s),
            AsmToken::ParenIdents(v) => format!("({})", v.join(",")),
        })
        .collect()
}

#[test]
fn hidden_variable_is_tied_and_mentioned() {
    let c = convert(false, "", &[op("0", 2)], &[op("=r", 1)], &[]);
    assert_eq!(
        c.setup,
        vec![
            AsmStmt::Setup(CExprId(1)),
            AsmStmt::LetOutput { output: 0, place: AsmExpr::Value(CExprId(1)) },
            AsmStmt::LetInner { output: 0 },
            AsmStmt::Setup(CExprId(2)),
            AsmStmt::LetInput { input: 1, value: AsmExpr::Value(CExprId(2)) },
        ]
    );
    assert_eq!(c.casts, vec![CastOut { output: 0, input: 1 }]);
    assert!(c.uses_raw_ref);
    assert!(c.uses_asm_casts);
    assert_eq!(c.call.template, vec!["/* {0} */\n".to_string(), "\n".to_string()]);
    assert_eq!(c.call.options, vec![AsmOption::PreservesFlags, AsmOption::AttSyntax]);
    assert_eq!(
        shown(&c.call.tokens()),
        vec![
            "\"/* {0} */\\n\"",
            ",",
            "\"\\n\"",
            ",",
            "inlateout",
            "(reg)",
            "CastIn { output: 0, input: 1 }",
            "=~",
            ">",
            "Inner(0)",
            ",",
            "options",
            "(preserves_flags,att_syntax)",
        ]
    );
}

#[test]
fn pure_needs_an_output_and_no_memory_clobber() {
    let outs = [op("=r", 1)];
    let ins = [op("r", 2)];
    let pure = convert(false, "mov $1, $0", &ins, &outs, &[]);
    assert_eq!(
        pure.call.options,
        vec![AsmOption::PreservesFlags, AsmOption::Pure, AsmOption::Readonly, AsmOption::AttSyntax]
    );
    assert!(!pure.uses_raw_ref);
    assert!(!pure.uses_asm_casts);
    let volatile = convert(true, "mov $1, $0", &ins, &outs, &["cc"]);
    assert_eq!(volatile.call.options, vec![AsmOption::AttSyntax]);
    let memory = convert(false, "mov $1, $0", &ins, &outs, &["memory"]);
    assert_eq!(memory.call.options, vec![AsmOption::PreservesFlags, AsmOption::AttSyntax]);
    let nothing = convert(false, "nop", &[], &[], &[]);
    assert_eq!(nothing.call.options, vec![AsmOption::PreservesFlags, AsmOption::AttSyntax]);
    let clobbered = convert(false, "nop", &[], &[], &["ax"]);
    assert!(clobbered.call.options.contains(&AsmOption::Pure));
}

#[test]
fn unreferenced_outputs_are_dropped() {
    let c = convert(false, "cpuid $1", &[], &[op("={eax}", 1), op("={ecx}", 2)], &[]);
    assert_eq!(c.call.args.len(), 1);
    assert_eq!(c.setup, vec![AsmStmt::Setup(CExprId(2))]);
    assert_eq!(c.call.template, vec!["cpuid {0}\n".to_string()]);
    match &c.call.args[0].place {
        OperandPlace::Register(r) => assert_eq!(r, "ecx"),
        OperandPlace::Class(k) => panic!("{}", k),
    }
    assert_eq!(c.call.args[0].out_expr, OutPlace::To(AsmExpr::Value(CExprId(2))));
    assert_eq!(c.call.args[0].in_expr, None);
}

#[test]
fn same_register_becomes_one_operand() {
    let c = convert(false, "inc $0", &[op("{eax}", 2), op("r", 3)], &[op("={eax}", 1)], &[]);
    assert_eq!(c.call.args.len(), 2);
    assert_eq!(c.call.args[0].in_expr, Some(AsmExpr::Value(CExprId(3))));
    assert_eq!(c.call.args[0].out_expr, OutPlace::Discard);
    assert_eq!(c.call.args[1].dir_spec, ArgDirSpec::InLateOut);
    assert_eq!(c.call.args[1].in_expr, Some(AsmExpr::Value(CExprId(2))));
    assert_eq!(c.call.args[1].out_expr, OutPlace::To(AsmExpr::Value(CExprId(1))));
    assert_eq!(c.call.template, vec!["inc {1}/* {0} */\n".to_string(), "\n".to_string()]);
}

#[test]
fn last_input_of_a_register_counts() {
    let c = convert(false, "nop", &[op("{eax}", 2), op("{eax}", 3)], &[], &[]);
    assert_eq!(c.call.args.len(), 1);
    assert_eq!(c.call.args[0].in_expr, Some(AsmExpr::Value(CExprId(3))));
}

#[test]
fn memory_goes_by_address() {
    let c = convert(true, "incl $0", &[], &[op("=*m", 1)], &["memory"]);
    assert!(c.uses_raw_ref);
    assert_eq!(c.call.args[0].dir_spec, ArgDirSpec::In);
    assert_eq!(
        c.call.args[0].out_expr,
        OutPlace::To(AsmExpr::AddressOf { mutable: true, expression: CExprId(1) })
    );
    assert_eq!(c.call.template, vec!["incl ({0})\n".to_string()]);
}

#[test]
fn reserved_registers_move_and_their_clobbers_drop() {
    let c = convert(true, "x $0", &[], &[op("={ebx}", 1)], &["rbx", "rcx", "cc"]);
    assert_eq!(c.call.args[0].name.as_deref(), Some("restmp0"));
    assert_eq!(
        c.call.template,
        vec!["x {0}\n".to_string(), "mov %ebx, {restmp0:e}\n".to_string()]
    );
    assert_eq!(c.reserved_clobbers, vec!["rbx".to_string()]);
    assert_eq!(c.call.clobbers, vec!["rcx".to_string()]);
    let tokens = shown(&c.call.tokens());
    assert_eq!(tokens[4], "restmp0");
    assert_eq!(tokens[5], "=");
    assert_eq!(&tokens[9..13], &[",", "out", "(\"rcx\")", "_"]);
}

#[test]
fn statements_that_cannot_be_converted() {
    let off = Translation { translate_asm: false, target: "x86_64".to_string() };
    assert_eq!(refused(&off, "nop", &[], &[]), "Inline assembly translation not enabled.");
    let odd = Translation { translate_asm: true, target: "sparc".to_string() };
    assert_eq!(
        refused(&odd, "nop", &[], &[]),
        "Cannot translate inline assembly for unfamiliar architecture"
    );
    assert_eq!(
        refused(&x86_64(), "jmp ${1:l}", &[op("r", 1)], &[]),
        "Cannot translate GNU asm goto (extended asm with label operands): label operands are not extracted from the Clang AST and have no Rust `asm!` equivalent that can be generated automatically."
    );
    assert!(refused(&x86_64(), "nop", &[op("zz", 1)], &[op("=yy", 2)]).contains("'zz'"));
    assert!(refused(&x86_64(), "nop", &[op("r", 1)], &[op("=yy", 2)]).contains("'yy'"));
    assert_eq!(refused(&x86_64(), "mov $x", &[op("r", 1)], &[]), "could not parse operand idx");
}

#[test]
fn ties_must_lead_back() {
    assert_eq!(
        refused(&x86_64(), "nop", &[op("5", 2)], &[op("=r", 1)]),
        "an input operand is tied to an output that has no operand before it"
    );
    let c = convert(true, "syscall", &[op("{r8}", 2)], &[], &[]);
    assert_eq!(c.call.args.len(), 1);
    assert_eq!(c.call.args[0].in_expr, Some(AsmExpr::Value(CExprId(2))));
    assert!(c.casts.is_empty());
}

#[test]
fn references_keep_their_operands_beside_ties() {
    let c = convert(false, "add $2, $0", &[op("0", 2), op("r", 3)], &[op("=r", 1)], &[]);
    assert_eq!(c.call.template, vec!["add {1}, {0}\n".to_string()]);
    assert_eq!(c.call.args[1].in_expr, Some(AsmExpr::Value(CExprId(3))));
    let d = convert(false, "add $2, $1", &[op("0", 2), op("r", 3)], &[op("=r", 1)], &[]);
    assert_eq!(d.call.template, vec!["add {1}, {0}\n".to_string()]);
}

#[test]
fn marks_before_an_index_keep_the_tie() {
    for (constraint, value) in [
        ("&0", AsmExpr::Value(CExprId(2))),
        ("*0", AsmExpr::Value(CExprId(2))),
    ] {
        let c = convert(false, "inc $0", &[op(constraint, 2)], &[op("=r", 1)], &[]);
        assert_eq!(c.casts, vec![CastOut { output: 0, input: 1 }]);
        assert!(c.setup.contains(&AsmStmt::LetInput { input: 1, value }));
        assert!(c.setup.contains(&AsmStmt::LetInner { output: 0 }));
        assert_eq!(c.call.template, vec!["inc {0}\n".to_string()]);
    }
}

#[test]
fn outputs_named_in_braces_are_kept() {
    let c = convert(false, "mov x, ${x0:w}", &[], &[op("=r", 1)], &[]);
    assert_eq!(c.call.args.len(), 1);
    assert_eq!(c.call.template, vec!["mov x, {0:x}\n".to_string()]);
}

#[test]
fn statements_are_warned_about() {
    let t = x86_64();
    let ins = [op("r", 1), op("zz", 2)];
    let outs = [op("=yy", 3)];
    let warned = t.asm_warnings("nop", &ins, &outs);
    assert_eq!(warned.len(), 1);
    assert!(warned[0].starts_with("Did not recognize inline asm constraint: zz\n"));
    assert!(t.asm_warnings("nop", &[op("r", 1)], &outs)[0].contains("constraint: yy\n"));
    assert!(t.asm_warnings("nop", &[op("r", 1)], &[]).is_empty());
    assert!(t.asm_warnings("jmp $9", &ins, &outs).is_empty());
}
