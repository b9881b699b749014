//! What becomes of the operands, clobbers and traits of a statement in the
//! `asm!`.

use crate::assembly::constraints::{names_register_or_index, reserved_register, Arch};
use crate::assembly::convert::{converted, lemma_only_source, planned_table, planned_with, PlanView};
use crate::assembly::operands::{lemma_only_counts, only, positional_first, OperandView};
use crate::assembly::pairing::{output_index, unified, ParsedView};
use crate::assembly::pairing_laws::{has_its_parts, law_operands_keep_their_parts, stands_for_input};
use crate::assembly::reserved::{after_moves, lemma_rewrites, reserved_moved, rewrites};
use crate::assembly::statement::{
    is_register_clobber, is_reserved_clobber, lowered, operand_place, register_clobbers,
    reserved_clobbers, AsmExpr, AsmOption, AsmStmt, CastOut, OutPlace, PlaceView,
};
use crate::assembly::syntax::is_att;
use crate::assembly::template::references;
use crate::text::{end_of_last, is_digit, lemma_first_in_unique, trim_to, CharClass};
use vstd::prelude::*;

verus! {

proof fn lemma_args(ops: Seq<OperandView>, tied: Map<(usize, bool), usize>, k: int)
    requires
        0 <= k < ops.len(),
    ensures
        lowered(ops, tied).args.len() == ops.len(),
        ({
            let op = ops[k];
            let arg = lowered(ops, tied).args[k];
            &&& arg.name == op.name
            &&& arg.dir_spec == op.dir_spec
            &&& arg.place == operand_place(op.constraints)
            &&& arg.in_expr == match op.in_expr {
                Some((i, e)) => Some(
                    if tied.contains_key((i, false)) {
                        AsmExpr::CastIn { output: tied[(i, false)], input: i }
                    } else if op.mem_only {
                        AsmExpr::AddressOf { mutable: false, expression: e }
                    } else {
                        AsmExpr::Value(e)
                    },
                ),
                None => None,
            }
            &&& arg.out_expr == match op.out_expr {
                Some((o, e)) => OutPlace::To(
                    if tied.contains_key((o, true)) {
                        AsmExpr::Inner(o)
                    } else if op.mem_only {
                        AsmExpr::AddressOf { mutable: true, expression: e }
                    } else {
                        AsmExpr::Value(e)
                    },
                ),
                None => if op.in_expr is Some && (op.dir_spec is InOut || op.dir_spec
                    is InLateOut) {
                    OutPlace::Discard
                } else {
                    OutPlace::Absent
                },
            }
        }),
    decreases ops.len(),
{
    let front = ops.drop_last();
    if k < front.len() {
        lemma_args(front, tied, k);
        assert(front[k] == ops[k]);
    } else if front.len() > 0 {
        lemma_args(front, tied, 0);
    } else {
        assert(lowered(front, tied).args.len() == 0);
    }
}

/// Each operand of a plan is one of the `asm!`, under its name and with its
/// direction. An expression that is tied goes through the locals. Any other is
/// given by its address if the operand is memory, inputs as well as outputs, and
/// by its value if not. An operand that is written to without an output is
/// discarded.
pub proof fn law_operands_are_given(
    plan: PlanView,
    is_volatile: bool,
    clobbers: Seq<Seq<char>>,
    k: int,
)
    requires
        0 <= k < plan.operands.len(),
    ensures
        converted(plan, is_volatile, clobbers).call.args.len() == plan.operands.len(),
        ({
            let op = plan.operands[k];
            let arg = converted(plan, is_volatile, clobbers).call.args[k];
            &&& arg.name == op.name
            &&& arg.dir_spec == op.dir_spec
            &&& arg.place == operand_place(op.constraints)
            &&& match op.in_expr {
                Some((i, e)) => arg.in_expr == if plan.tied.contains_key((i, false)) {
                    Some(AsmExpr::CastIn { output: plan.tied[(i, false)], input: i })
                } else if op.mem_only {
                    Some(AsmExpr::AddressOf { mutable: false, expression: e })
                } else {
                    Some(AsmExpr::Value(e))
                },
                None => arg.in_expr is None,
            }
            &&& match op.out_expr {
                Some((o, e)) => arg.out_expr == if plan.tied.contains_key((o, true)) {
                    OutPlace::To(AsmExpr::Inner(o))
                } else if op.mem_only {
                    OutPlace::To(AsmExpr::AddressOf { mutable: true, expression: e })
                } else {
                    OutPlace::To(AsmExpr::Value(e))
                },
                None => arg.out_expr == if op.in_expr is Some && (op.dir_spec is InOut
                    || op.dir_spec is InLateOut) {
                    OutPlace::Discard
                } else {
                    OutPlace::Absent
                },
            }
        }),
{
    lemma_args(plan.operands, plan.tied, k);
}

/// What an operand adds to the statements before and behind the `asm!`: the
/// statements of its output's expression, for a tied output the locals for its
/// address and for the value of the assembly, the statements of its input's
/// expression, and for a tied input the local for its value and a cast behind.
pub proof fn law_one_more_operand(
    ops: Seq<OperandView>,
    op: OperandView,
    tied: Map<(usize, bool), usize>,
)
    ensures
        ({
            let before = lowered(ops, tied);
            let after = lowered(ops.push(op), tied);
            let for_output = match op.out_expr {
                None => Seq::empty(),
                Some((o, e)) => if !tied.contains_key((o, true)) {
                    seq![AsmStmt::Setup(e)]
                } else if op.mem_only {
                    seq![
                        AsmStmt::Setup(e),
                        AsmStmt::LetOutput {
                            output: o,
                            place: AsmExpr::AddressOf { mutable: true, expression: e },
                        },
                        AsmStmt::LetInner { output: o },
                    ]
                } else {
                    seq![
                        AsmStmt::Setup(e),
                        AsmStmt::LetOutput { output: o, place: AsmExpr::Value(e) },
                        AsmStmt::LetInner { output: o },
                    ]
                },
            };
            let for_input = match op.in_expr {
                None => Seq::empty(),
                Some((i, e)) => if !tied.contains_key((i, false)) {
                    seq![AsmStmt::Setup(e)]
                } else if op.mem_only {
                    seq![
                        AsmStmt::Setup(e),
                        AsmStmt::LetInput {
                            input: i,
                            value: AsmExpr::AddressOf { mutable: false, expression: e },
                        },
                    ]
                } else {
                    seq![
                        AsmStmt::Setup(e),
                        AsmStmt::LetInput { input: i, value: AsmExpr::Value(e) },
                    ]
                },
            };
            let cast = match op.in_expr {
                Some((i, _)) if tied.contains_key((i, false)) => seq![
                    CastOut { output: tied[(i, false)], input: i },
                ],
                _ => Seq::empty(),
            };
            let takes_address = (op.mem_only && (op.in_expr is Some || op.out_expr is Some)) || (
            match op.out_expr {
                Some((o, _)) => tied.contains_key((o, true)),
                None => false,
            });
            &&& after.setup == before.setup + for_output + for_input
            &&& after.casts == before.casts + cast
            &&& after.uses_raw_ref == (before.uses_raw_ref || takes_address)
        }),
{
    assert(ops.push(op).drop_last() =~= ops);
    assert(ops.push(op).last() == op);
}

/// Without operands there is nothing around the `asm!`.
pub proof fn law_no_operands(tied: Map<(usize, bool), usize>)
    ensures
        ({
            let none = lowered(Seq::empty(), tied);
            none.setup.len() == 0 && none.args.len() == 0 && none.casts.len() == 0
                && !none.uses_raw_ref
        }),
{
}

/// The statements before and behind the `asm!` are those of the operands, and
/// the casts' crate is used exactly if there is a cast.
pub proof fn law_statements_are_those_of_the_operands(
    plan: PlanView,
    is_volatile: bool,
    clobbers: Seq<Seq<char>>,
)
    ensures
        ({
            let c = converted(plan, is_volatile, clobbers);
            let l = lowered(plan.operands, plan.tied);
            &&& c.setup == l.setup
            &&& c.casts == l.casts
            &&& c.uses_raw_ref == l.uses_raw_ref
            &&& c.uses_asm_casts <==> c.casts.len() > 0
        }),
{
}

/// An explicit register is written as a string without its quotes, and a
/// register class as it is.
pub proof fn law_places(name: Seq<char>, class: Seq<char>)
    requires
        name.len() > 0,
        !name.contains('"'),
        !class.contains('"'),
        class.len() > 0 ==> !is_digit(class[0]),
    ensures
        operand_place("\""@ + name + "\""@) == PlaceView::Register(name),
        operand_place(class) == PlaceView::Class(class),
{
    reveal_strlit("\"");
    let quoted = "\""@ + name + "\""@;
    let n = name.len() as int;
    assert(quoted[0] == '"');
    assert(quoted.contains('"'));
    assert(quoted[1] == name[0]);
    assert(quoted[n] == name[n - 1]);
    assert(quoted[n + 1] == '"');
    assert(name.contains(name[0]) && name.contains(name[n - 1]));
    let other = CharClass::IsNot('"');
    lemma_first_in_unique(quoted, other, 0, 1);
    assert(end_of_last(quoted, other, n + 2) == end_of_last(quoted, other, n + 1));
    assert(end_of_last(quoted, other, n + 1) == n + 1);
    assert(quoted.subrange(1, n + 1) =~= name);
}

/// The clobbers that become operands are those of registers that the compiler
/// does not keep for itself; those that it does are dropped and reported. `cc`
/// and `memory` are neither.
pub proof fn law_clobbers(clobbers: Seq<Seq<char>>, arch: Arch, c: Seq<char>)
    ensures
        ({
            let is_register = clobbers.contains(c) && c != "cc"@ && c != "memory"@;
            let is_reserved = reserved_register("\""@ + c + "\""@, arch) is Some;
            &&& register_clobbers(clobbers, arch).contains(c) <==> is_register && !is_reserved
            &&& reserved_clobbers(clobbers, arch).contains(c) <==> is_register && is_reserved
        }),
{
    broadcast use vstd::seq_lib::group_filter_ensures;

    let registers = |x: Seq<char>| is_register_clobber(x, arch);
    let reserved = |x: Seq<char>| is_reserved_clobber(x, arch);
    let a = clobbers.filter(registers);
    let b = clobbers.filter(reserved);
    if a.contains(c) {
        clobbers.lemma_filter_contains_rev(registers, c);
        let k = choose|k: int| 0 <= k < a.len() && a[k] == c;
        assert(registers(a[k]));
    }
    if b.contains(c) {
        clobbers.lemma_filter_contains_rev(reserved, c);
        let k = choose|k: int| 0 <= k < b.len() && b[k] == c;
        assert(reserved(b[k]));
    }
    if clobbers.contains(c) {
        let k = choose|k: int| 0 <= k < clobbers.len() && clobbers[k] == c;
        if registers(c) {
            assert(a.contains(clobbers[k]));
        }
        if reserved(c) {
            assert(b.contains(clobbers[k]));
        }
    }
}

/// The clobbers of a converted statement are those that become operands and
/// those that are reported.
pub proof fn law_converted_clobbers(
    plan: PlanView,
    is_volatile: bool,
    clobbers: Seq<Seq<char>>,
    c: Seq<char>,
)
    ensures
        ({
            let conversion = converted(plan, is_volatile, clobbers);
            let is_register = clobbers.contains(c) && c != "cc"@ && c != "memory"@;
            let is_reserved = reserved_register("\""@ + c + "\""@, plan.arch) is Some;
            &&& conversion.call.clobbers.contains(c) <==> is_register && !is_reserved
            &&& conversion.reserved_clobbers.contains(c) <==> is_register && is_reserved
        }),
{
    law_clobbers(clobbers, plan.arch, c);
}

/// The flags are declared kept exactly if no clobber says otherwise, and AT&T
/// syntax exactly if the template is in it, whatever else is true of the
/// statement. No option is given twice.
pub proof fn law_flags_and_syntax(plan: PlanView, is_volatile: bool, clobbers: Seq<Seq<char>>)
    ensures
        ({
            let options = converted(plan, is_volatile, clobbers).call.options;
            &&& options.contains(AsmOption::PreservesFlags) <==> !clobbers.contains("cc"@)
            &&& options.contains(AsmOption::AttSyntax) <==> plan.att_syntax
            &&& options.no_duplicates()
        }),
{
    let options = converted(plan, is_volatile, clobbers).call.options;
    if !clobbers.contains("cc"@) {
        assert(options[0] == AsmOption::PreservesFlags);
    }
    if plan.att_syntax {
        assert(options[options.len() - 1] == AsmOption::AttSyntax);
    }
}

/// Where a moved operand comes from.
proof fn lemma_moved_source(
    ops: Seq<OperandView>,
    att: bool,
    arch: Arch,
    n: nat,
    k: int,
) -> (j: int)
    requires
        n <= rewrites(ops, arch).len(),
        0 <= k < ops.len(),
    ensures
        after_moves(ops, att, arch, n).ops.len() == ops.len(),
        0 <= j < ops.len(),
        same_parts(after_moves(ops, att, arch, n).ops[k], ops[j]),
    decreases n,
{
    if n == 0 {
        k
    } else {
        lemma_rewrites(ops, arch);
        lemma_only_counts(ops);
        let prev = after_moves(ops, att, arch, (n - 1) as nat).ops;
        let next = after_moves(ops, att, arch, n).ops;
        let a = rewrites(ops, arch)[n - 1].idx;
        let b = only(ops, true).len() + n - 1;
        assert(0 <= a < ops.len());
        assert(0 <= b < ops.len());
        let from = if k == a {
            b
        } else if k == b {
            a
        } else {
            k
        };
        let j = lemma_moved_source(ops, att, arch, (n - 1) as nat, from);
        assert(same_parts(next[k], prev[from]));
        j
    }
}

/// The operands are the same but for a register that was exchanged for a name.
pub open spec fn same_parts(a: OperandView, b: OperandView) -> bool {
    &&& a.in_expr == b.in_expr
    &&& a.out_expr == b.out_expr
    &&& a.mem_only == b.mem_only
    &&& a.dir_spec == b.dir_spec
    &&& (a.constraints == b.constraints && a.name == b.name) || (a.constraints == "reg"@ && a.name
        is Some)
}

/// The operand has the parts of what it stands for, but for a register that was
/// exchanged for a name.
pub open spec fn has_parts_of_source(
    op: OperandView,
    ins: Seq<ParsedView>,
    outs: Seq<ParsedView>,
    refs: Set<usize>,
) -> bool {
    exists|source: OperandView|
        has_its_parts(source, ins, outs, refs) && #[trigger] same_parts(op, source)
}

/// Every operand of a plan has its direction, its expressions and whether it is
/// memory from the output and the input that it stands for, and its class or
/// register too unless it got a name in the place of a reserved register.
pub proof fn law_plan_operands_keep_their_parts(
    template: Seq<char>,
    tied: Map<(usize, bool), usize>,
    ins: Seq<ParsedView>,
    outs: Seq<ParsedView>,
    arch: Arch,
)
    requires
        ins.len() + outs.len() <= usize::MAX,
    ensures
        planned_with(template, tied, ins, outs, arch) matches Ok(plan) ==> forall|k: int|
            0 <= k < plan.operands.len() ==> has_parts_of_source(
                #[trigger] plan.operands[k],
                ins,
                outs,
                references(template).to_set(),
            ),
{
    if let Ok(plan) = planned_with(template, tied, ins, outs, arch) {
        let refs = references(template).to_set();
        let ops = unified(ins, outs, refs);
        let att = (arch is X86 || arch is X86_64) && is_att(template);
        let sorted = positional_first(ops);
        let p = only(ops, true).len() as int;
        law_operands_keep_their_parts(ins, outs, refs);
        lemma_only_counts(ops);
        assert(plan.operands == reserved_moved(sorted, att, arch).ops);
        assert(plan.operands.len() == sorted.len()) by {
            if sorted.len() > 0 {
                let j = lemma_moved_source(sorted, att, arch, rewrites(sorted, arch).len(), 0);
            } else {
                lemma_rewrites(sorted, arch);
                assert(rewrites(sorted, arch).len() == 0);
            }
        }
        assert forall|k: int| 0 <= k < plan.operands.len() implies has_parts_of_source(
            #[trigger] plan.operands[k],
            ins,
            outs,
            refs,
        ) by {
            let j = lemma_moved_source(sorted, att, arch, rewrites(sorted, arch).len(), k);
            let i = if j < p {
                lemma_only_source(ops, true, j)
            } else {
                lemma_only_source(ops, false, j - p)
            };
            assert(sorted[j] == ops[i]);
            assert(has_its_parts(ops[i], ins, outs, refs));
            assert(same_parts(plan.operands[k], ops[i]));
        }
    }
}

/// Brackets and addresses go together: the references to an operand, by the index
/// of its output or, if it has none, of its input, get brackets in the template
/// exactly if the operand is memory, which is when its expression is given by
/// address.
pub proof fn law_brackets_mean_addresses(
    template: Seq<char>,
    tied: Map<(usize, bool), usize>,
    ins: Seq<ParsedView>,
    outs: Seq<ParsedView>,
    arch: Arch,
    k: int,
)
    requires
        ins.len() + outs.len() <= usize::MAX,
    ensures
        planned_with(template, tied, ins, outs, arch) matches Ok(plan) ==> 0 <= k
            < plan.operands.len() ==> {
            let op = plan.operands[k];
            let idx = match op.out_expr {
                Some((o, _)) => o as int,
                None => op.in_expr.unwrap().0 as int,
            };
            let flags = planned_table(template, ins, outs, arch).mem_only;
            &&& op.out_expr is Some || op.in_expr is Some
            &&& idx < flags.len()
            &&& flags[idx] == op.mem_only
        },
{
    if let Ok(plan) = planned_with(template, tied, ins, outs, arch) {
        if 0 <= k < plan.operands.len() {
            let refs = references(template).to_set();
            law_plan_operands_keep_their_parts(template, tied, ins, outs, arch);
            let op = plan.operands[k];
            assert(has_parts_of_source(op, ins, outs, refs));
            let source = choose|source: OperandView|
                has_its_parts(source, ins, outs, refs) && #[trigger] same_parts(op, source);
            if output_index(source) is None {
                let i = choose|i: int| #[trigger] stands_for_input(source, i, ins, outs.len());
                assert(stands_for_input(source, i, ins, outs.len()));
            }
        }
    }
}

/// The clobbers are sorted one by one: each adds itself, behind those before it,
/// to the registers, to those that are dropped, or to neither.
pub proof fn law_one_more_clobber(clobbers: Seq<Seq<char>>, c: Seq<char>, arch: Arch)
    ensures
        ({
            let is_register = c != "cc"@ && c != "memory"@;
            let is_reserved = reserved_register("\""@ + c + "\""@, arch) is Some;
            let all = clobbers.push(c);
            &&& register_clobbers(all, arch) == if is_register && !is_reserved {
                register_clobbers(clobbers, arch).push(c)
            } else {
                register_clobbers(clobbers, arch)
            }
            &&& reserved_clobbers(all, arch) == if is_register && is_reserved {
                reserved_clobbers(clobbers, arch).push(c)
            } else {
                reserved_clobbers(clobbers, arch)
            }
        }),
        register_clobbers(Seq::empty(), arch).len() == 0,
        reserved_clobbers(Seq::empty(), arch).len() == 0,
{
    reveal(Seq::filter);
    assert(clobbers.push(c).drop_last() =~= clobbers);
}

/// What names a register or an index is written as a string, without the quotes
/// around it, and all else as a class.
pub proof fn law_places_by_kind(constraints: Seq<char>)
    ensures
        operand_place(constraints) == if names_register_or_index(constraints) {
            PlaceView::Register(trim_to(constraints, CharClass::IsNot('"')))
        } else {
            PlaceView::Class(constraints)
        },
{
}

/// The place of an option among the others.
pub open spec fn option_place(option: AsmOption) -> int {
    match option {
        AsmOption::PreservesFlags => 0,
        AsmOption::Pure => 1,
        AsmOption::Readonly => 2,
        AsmOption::AttSyntax => 3,
    }
}

/// The options are always given in the same order.
pub proof fn law_options_are_in_order(
    plan: PlanView,
    is_volatile: bool,
    clobbers: Seq<Seq<char>>,
)
    ensures
        ({
            let options = converted(plan, is_volatile, clobbers).call.options;
            forall|i: int, j: int|
                0 <= i < j < options.len() ==> option_place(#[trigger] options[i]) < option_place(
                    #[trigger] options[j],
                )
        }),
{
}

} // verus!
