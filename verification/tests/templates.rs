use c2rust_transpile::assembly::constraints::{Arch, ArgDirSpec};
use c2rust_transpile::assembly::operands::{
    find_orig_idx, sort_positional_first, BidirAsmOperand, CExprId, TiedOperands,
};
use c2rust_transpile::assembly::reserved::rewrite_reserved_reg_operands;
use c2rust_transpile::assembly::syntax::{asm_is_att_syntax, remove_comments};
use c2rust_transpile::assembly::template::{
    referenced_operand_indices, references_operand_at_or_beyond, rewrite_asm, OperandTable,
};

fn operand(constraints: &str, input: Option<usize>, output: Option<usize>) -> BidirAsmOperand {
    BidirAsmOperand {
        dir_spec: ArgDirSpec::InLateOut,
        mem_only: false,
        constraints: constraints.to_string(),
        name: None,
        in_expr: input.map(|i| (i, CExprId(100 + i as u64))),
        out_expr: output.map(|o| (o, CExprId(200 + o as u64))),
    }
}

fn table(mem_only: Vec<bool>) -> OperandTable {
    OperandTable {
        operands: vec![operand("reg", None, Some(0)), operand("reg", Some(1), None)],
        mem_only,
    }
}

fn rewritten(template: &str, att: bool, mem_only: Vec<bool>) -> String {
    match rewrite_asm(template, att, &table(mem_only), Arch::X86_64) {
        Ok(s) => s,
        Err(e) => panic!("{:?}", e),
    }
}

fn refused(template: &str) -> String {
    match rewrite_asm(template, true, &table(vec![false, false]), Arch::X86_64) {
        Ok(s) => panic!("{}", s),
        Err(e) => e.cause().unwrap().clone(),
    }
}

#[test]
fn references_become_braces() {
    let none = vec![false, false];
    assert_eq!(rewritten("mov $0, $1", true, none.clone()), "mov {0}, {1}");
    assert_eq!(rewritten("mov $k0, ${1:w}!", true, none.clone()), "mov {0:e}, {1:x}!");
    assert_eq!(rewritten("mov $z0", true, none.clone()), "mov {0}");
    assert_eq!(rewritten("a $, b", true, none.clone()), "a , b");
    assert_eq!(rewritten("a ${0", true, none.clone()), "a {0");
    assert_eq!(rewritten("mov ${0}, $1", false, none.clone()), "mov {0}, {1}");
    assert_eq!(rewritten("a ${x1:w} b", true, none.clone()), "a {1:x} b");
    assert_eq!(rewritten("a ${foo} b$0", true, none.clone()), "a {foo} b{0}");
    assert_eq!(rewritten("a ${1} b$0", true, none), "a {1} b{0}");
}

#[test]
fn memory_references_get_brackets() {
    let mem = vec![false, true];
    assert_eq!(rewritten("mov $1, $0", true, mem.clone()), "mov ({1}), {0}");
    assert_eq!(rewritten("mov $0, $1", false, mem), "mov {0}, [{1}]");
}

#[test]
fn doubled_dollars_come_back() {
    let none = vec![false, false];
    assert_eq!(rewritten("$$1, $$$$x$$", true, none.clone()), "$1, $$x$");
    assert_eq!(rewritten("nop", true, none), "nop");
    assert!(referenced_operand_indices("$$1, $$$$x$$").is_empty());
}

#[test]
fn bad_references_are_refused() {
    assert_eq!(refused("mov $x"), "could not parse operand idx");
    assert_eq!(refused("mov ${x:y}"), "could not parse operand idx");
    assert_eq!(refused("${:uid}: li 7"), "could not parse operand idx");
    assert_eq!(refused("mov $7"), "no operand had index 7 in asm str:\nmov $7");
}

#[test]
fn scans_find_references() {
    let t = "mov $0, $k3, ${12:w} $$5 $, $x";
    let mut found: Vec<usize> = referenced_operand_indices(t).into_iter().collect();
    found.sort();
    assert_eq!(found, vec![0, 3, 12]);
    assert!(references_operand_at_or_beyond(t, 12));
    assert!(!references_operand_at_or_beyond(t, 13));
    assert!(!references_operand_at_or_beyond("nop", 0));
    assert!(referenced_operand_indices("${:uid}: li 7").is_empty());
    assert_eq!(referenced_operand_indices("${x1:b} 2").into_iter().collect::<Vec<_>>(), vec![1]);
    assert!(referenced_operand_indices("${foo} 3").is_empty());
}

#[test]
fn comments_are_removed() {
    assert_eq!(remove_comments("a /* b */ c # d\ne"), "a  c \ne\n");
    assert_eq!(remove_comments("a /* b"), "a \n");
    assert_eq!(remove_comments("a\r\nb"), "a\nb\n");
    assert_eq!(remove_comments("/*/ a */b"), "b\n");
    assert_eq!(remove_comments(""), "");
}

#[test]
fn syntax_is_detected() {
    assert!(asm_is_att_syntax("mov %eax, %ebx"));
    assert!(asm_is_att_syntax("mov $$1, x"));
    assert!(asm_is_att_syntax("lea (x), y"));
    assert!(asm_is_att_syntax("nop"));
    assert!(!asm_is_att_syntax("mov eax, [ebx]"));
    assert!(!asm_is_att_syntax("mov word ptr (x), y"));
    assert!(!asm_is_att_syntax(".intel_syntax noprefix\nmov %x\n.att_syntax"));
    assert!(asm_is_att_syntax(".att_syntax\nmov [x]\n.intel_syntax"));
    assert!(!asm_is_att_syntax("mov [x] # %y\n/* %z */"));
}

#[test]
fn ties_are_looked_up() {
    let mut tied = TiedOperands::new();
    tied.insert((0, true), 0);
    tied.insert((1, false), 0);
    tied.insert((0, true), 2);
    assert_eq!(tied.get((0, true)), Some(2));
    assert_eq!(tied.get((1, false)), Some(0));
    assert_eq!(tied.get((1, true)), None);
}

#[test]
fn operands_are_found_and_sorted() {
    let ops = vec![
        operand("\"ax\"", None, Some(0)),
        operand("reg", Some(2), None),
        operand("reg", Some(3), Some(1)),
    ];
    assert_eq!(find_orig_idx(&ops, 3), Some(2));
    assert_eq!(find_orig_idx(&ops, 1), Some(2));
    assert_eq!(find_orig_idx(&ops, 9), None);
    let sorted = sort_positional_first(ops);
    let names: Vec<&str> = sorted.iter().map(|o| o.constraints.as_str()).collect();
    assert_eq!(names, vec!["reg", "reg", "\"ax\""]);
    assert_eq!(find_orig_idx(&sorted, 0), Some(2));
}

#[test]
fn reserved_operands_move() {
    let mut ops = vec![
        operand("reg", Some(2), None),
        operand("\"ax\"", None, Some(0)),
        operand("\"rbx\"", Some(3), Some(1)),
    ];
    let (prolog, epilog) = rewrite_reserved_reg_operands(true, Arch::X86_64, &mut ops);
    assert_eq!(prolog, "mov {restmp0:r}, %rbx\n");
    assert_eq!(epilog, "\nmov %rbx, {restmp0:r}");
    assert_eq!(ops[1].name.as_deref(), Some("restmp0"));
    assert_eq!(ops[1].constraints, "reg");
    assert_eq!(ops[2].constraints, "\"ax\"");
    let mut intel = vec![operand("\"esi\"", Some(0), None)];
    let (prolog, epilog) = rewrite_reserved_reg_operands(false, Arch::X86, &mut intel);
    assert_eq!(prolog, "mov esi, {restmp0:e}\n");
    assert_eq!(epilog, "");
    let mut both = vec![operand("\"rbx\"", Some(1), Some(0))];
    let (prolog, epilog) = rewrite_reserved_reg_operands(false, Arch::X86_64, &mut both);
    assert_eq!((prolog.as_str(), epilog.as_str()), ("mov rbx, {restmp0:r}\n", "\nmov {restmp0:r}, rbx"));
}
