//! What a plan is made of, which statements have none, and how it comes out.

use crate::assembly::constraints::{arch_of, Arch};
use crate::assembly::convert::{
    has_locals, is_referenced, loose_tie_error, mem_only_flags, planned, planned_table, planned_with,
    some_unreferenced, statement_warnings, template_lines, tie_leads_back, usage_comments, PlanView,
};
use crate::assembly::operands::{positional_first, OperandView};
use crate::assembly::pairing::{
    operand_warnings, parsed_operands, ties, unified, ParsedView, SourceView,
};
use crate::assembly::reserved::reserved_moved;
use crate::assembly::syntax::is_att;
use crate::assembly::template::{references, rewritten};
use crate::errors::ErrorView;
use crate::text::{decimal, lemma_split_pieces, split};
use vstd::prelude::*;

verus! {

/// Whether there is inline assembly to translate, whether the architecture is
/// known, and whether a label is referred to, is settled first and in this
/// order, and each has an error of its own. After that an input without a
/// meaning is reported before an output without one.
pub proof fn law_statements_are_refused_in_order(
    translate_asm: bool,
    target: Seq<char>,
    template: Seq<char>,
    inputs: Seq<SourceView>,
    outputs: Seq<SourceView>,
)
    ensures
        ({
            let plan = planned(translate_asm, target, template, inputs, outputs);
            let arch = arch_of(target);
            let has_label = exists|k: int|
                0 <= k < references(template).len() && #[trigger] references(template)[k]
                    >= outputs.len() + inputs.len();
            let is_looked_at = translate_asm && arch is Some && !has_label;
            &&& !translate_asm ==> (plan matches Err(e) && e.cause == Some(
                "Inline assembly translation not enabled."@,
            ))
            &&& translate_asm && arch is None ==> (plan matches Err(e) && e.cause == Some(
                "Cannot translate inline assembly for unfamiliar architecture"@,
            ))
            &&& translate_asm && arch is Some && has_label ==> (plan matches Err(e) && e.cause
                == Some(
                "Cannot translate GNU asm goto (extended asm with label operands): label operands are not extracted from the Clang AST and have no Rust `asm!` equivalent that can be generated automatically."@,
            ))
            &&& is_looked_at ==> match parsed_operands(inputs, arch.unwrap()) {
                Err(e) => plan == Err::<PlanView, ErrorView>(e),
                Ok(ins) => match parsed_operands(outputs, arch.unwrap()) {
                    Err(e) => plan == Err::<PlanView, ErrorView>(e),
                    Ok(outs) => plan == planned_with(
                        template,
                        ties(inputs, outputs.len()),
                        ins,
                        outs,
                        arch.unwrap(),
                    ),
                },
            }
        }),
{
}

/// There is something to warn about only where operands are looked at, and then
/// about the inputs if one of them has no meaning, and else about the outputs.
pub proof fn law_warnings_are_about_operands(
    translate_asm: bool,
    target: Seq<char>,
    template: Seq<char>,
    inputs: Seq<SourceView>,
    outputs: Seq<SourceView>,
)
    ensures
        ({
            let warnings = statement_warnings(translate_asm, target, template, inputs, outputs);
            let arch = arch_of(target);
            let has_label = exists|k: int|
                0 <= k < references(template).len() && #[trigger] references(template)[k]
                    >= outputs.len() + inputs.len();
            if !translate_asm || arch is None || has_label {
                warnings.len() == 0
            } else if parsed_operands(inputs, arch.unwrap()) is Err {
                warnings == operand_warnings(inputs, arch.unwrap())
            } else {
                warnings == operand_warnings(outputs, arch.unwrap())
            }
        }),
{
}

/// The operand is tied, and no output that it could be cast to has come by then.
pub open spec fn tie_is_loose(
    ops: Seq<OperandView>,
    tied: Map<(usize, bool), usize>,
    k: int,
) -> bool {
    ops[k].in_expr matches Some((i, _)) && tied.contains_key((i, false)) && forall|j: int|
        0 <= j <= k && ((#[trigger] ops[j]).out_expr matches Some((o, _)) && o == tied[(i, false)])
            ==> !tied.contains_key((tied[(i, false)], true))
}

/// Some operand has a loose tie.
pub open spec fn has_loose_tie(ops: Seq<OperandView>, tied: Map<(usize, bool), usize>) -> bool {
    exists|k: int| 0 <= k < ops.len() && #[trigger] tie_is_loose(ops, tied, k)
}

proof fn lemma_loose(ops: Seq<OperandView>, tied: Map<(usize, bool), usize>, k: int)
    ensures
        tie_is_loose(ops, tied, k) == !tie_leads_back(ops, tied, k),
{
    if let Some((i, _)) = ops[k].in_expr {
        if tied.contains_key((i, false)) {
            let o = tied[(i, false)];
            if has_locals(ops, tied, o, k + 1) {
                let j = choose|j: int|
                    0 <= j < k + 1 && ((#[trigger] ops[j]).out_expr matches Some((idx, _)) && idx
                        == o && tied.contains_key((idx, true)));
                assert(ops[j].out_expr is Some);
            } else {
                assert forall|j: int|
                    0 <= j <= k && ((#[trigger] ops[j]).out_expr matches Some((idx, _)) && idx
                        == o) implies !tied.contains_key((o, true)) by {}
            }
        }
    }
}

/// Operands that parse have a plan exactly if the template can be rewritten and
/// no tie is loose. The plan has the architecture and the ties that it is made
/// for, and is in AT&T syntax exactly if the machine is an x86 and the template
/// is. Its text is the rewritten template, between the instructions that copy
/// operands in and those that copy them out, and then the comments.
pub proof fn law_plans_are_made_of_the_template(
    template: Seq<char>,
    tied: Map<(usize, bool), usize>,
    ins: Seq<ParsedView>,
    outs: Seq<ParsedView>,
    arch: Arch,
)
    ensures
        ({
            let refs = references(template).to_set();
            let att = (arch == Arch::X86 || arch == Arch::X86_64) && is_att(template);
            let moved = reserved_moved(positional_first(unified(ins, outs, refs)), att, arch);
            let text = rewritten(template, att, planned_table(template, ins, outs, arch), arch);
            let is_loose = has_loose_tie(moved.ops, tied);
            match planned_with(template, tied, ins, outs, arch) {
                Ok(plan) => {
                    &&& text is Ok && !is_loose
                    &&& plan.arch == arch && plan.tied == tied && plan.att_syntax == att
                    &&& plan.operands == moved.ops
                    &&& plan.text == moved.prolog + text->Ok_0 + moved.epilog + usage_comments(
                        plan.operands,
                        refs,
                    )
                },
                Err(e) => match text {
                    Err(cause) => e == cause,
                    Ok(_) => is_loose && e.cause == Some(
                        "an input operand is tied to an output that has no operand before it"@,
                    ),
                },
            }
        }),
{
    let refs = references(template).to_set();
    let att = (arch == Arch::X86 || arch == Arch::X86_64) && is_att(template);
    let moved = reserved_moved(positional_first(unified(ins, outs, refs)), att, arch);
    let text = rewritten(template, att, planned_table(template, ins, outs, arch), arch);
    if let Ok(t) = text {
        let plan = PlanView {
            arch,
            operands: moved.ops,
            tied,
            text: moved.prolog + t + moved.epilog + usage_comments(moved.ops, refs),
            att_syntax: att,
            comment_only_operand: some_unreferenced(moved.ops, refs),
        };
        lemma_loose_plan(plan);
        assert(planned_with(template, tied, ins, outs, arch) == if plan.ties_lead_back() {
            Ok::<PlanView, ErrorView>(plan)
        } else {
            Err(loose_tie_error())
        });
    }
}

proof fn lemma_loose_plan(plan: PlanView)
    ensures
        plan.ties_lead_back() == !has_loose_tie(plan.operands, plan.tied),
{
    let ops = plan.operands;
    if plan.ties_lead_back() {
        assert forall|k: int| 0 <= k < ops.len() implies !#[trigger] tie_is_loose(
            ops,
            plan.tied,
            k,
        ) by {
            lemma_loose(ops, plan.tied, k);
            assert(tie_leads_back(ops, plan.tied, k));
        }
    } else {
        let k = choose|k: int|
            0 <= k < ops.len() && !#[trigger] tie_leads_back(ops, plan.tied, k);
        lemma_loose(ops, plan.tied, k);
    }
}

/// The memory flags are those of the outputs and then those of the inputs.
pub proof fn law_memory_flags(
    template: Seq<char>,
    ins: Seq<ParsedView>,
    outs: Seq<ParsedView>,
    arch: Arch,
    i: int,
)
    ensures
        ({
            let flags = planned_table(template, ins, outs, arch).mem_only;
            &&& flags == mem_only_flags(outs, ins)
            &&& flags.len() == outs.len() + ins.len()
            &&& 0 <= i < outs.len() ==> flags[i] == outs[i].mem_only
            &&& 0 <= i < ins.len() ==> flags[outs.len() + i] == ins[i].mem_only
        }),
{
}

/// The template refers to the output or to the input of the operand.
pub open spec fn has_reference(op: OperandView, template: Seq<char>) -> bool {
    exists|k: int|
        0 <= k < references(template).len() && op.at_orig_idx(
            #[trigger] references(template)[k] as int,
        )
}

proof fn lemma_has_reference(op: OperandView, template: Seq<char>)
    ensures
        has_reference(op, template) == is_referenced(
            op,
            references(template).to_set(),
        ),
{
    let refs = references(template);
    let set = refs.to_set();
    if has_reference(op, template) {
        let k = choose|k: int| 0 <= k < refs.len() && op.at_orig_idx(#[trigger] refs[k] as int);
        assert(set.contains(refs[k]));
    }
    if let Some((o, _)) = op.out_expr {
        if set.contains(o) {
            let k = choose|k: int| 0 <= k < refs.len() && refs[k] == o;
            assert(op.at_orig_idx(refs[k] as int));
        }
    }
    if let Some((i, _)) = op.in_expr {
        if set.contains(i) {
            let k = choose|k: int| 0 <= k < refs.len() && refs[k] == i;
            assert(op.at_orig_idx(refs[k] as int));
        }
    }
}

/// An operand gets a comment with its number exactly if the template refers
/// neither to its output nor to its input.
pub proof fn law_comments_are_for_operands_without_references(
    ops: Seq<OperandView>,
    op: OperandView,
    template: Seq<char>,
)
    ensures
        ({
            let refs = references(template).to_set();
            usage_comments(ops.push(op), refs) == if has_reference(op, template) {
                usage_comments(ops, refs)
            } else {
                usage_comments(ops, refs) + ("/* {"@ + decimal(ops.len()) + "} */\n"@)
            }
        }),
        usage_comments(Seq::empty(), references(template).to_set()).len() == 0,
{
    lemma_has_reference(op, template);
    assert(ops.push(op).drop_last() =~= ops);
    assert(ops.push(op).last() == op);
}

/// A plan counts as having an operand in a comment only exactly if the template
/// refers to some operand neither by its output nor by its input.
pub proof fn law_comment_only_operands(
    template: Seq<char>,
    tied: Map<(usize, bool), usize>,
    ins: Seq<ParsedView>,
    outs: Seq<ParsedView>,
    arch: Arch,
)
    ensures
        planned_with(template, tied, ins, outs, arch) matches Ok(plan) ==> (
        plan.comment_only_operand <==> exists|k: int|
            0 <= k < plan.operands.len() && !has_reference(#[trigger] plan.operands[k], template)),
{
    if let Ok(plan) = planned_with(template, tied, ins, outs, arch) {
        let refs = references(template).to_set();
        assert forall|k: int| 0 <= k < plan.operands.len() implies has_reference(
            #[trigger] plan.operands[k],
            template,
        ) == is_referenced(plan.operands[k], refs) by {
            lemma_has_reference(plan.operands[k], template);
        }
    }
}

/// Every line of a template ends with a line feed and holds no other.
pub proof fn law_lines_end_with_a_line_feed(text: Seq<char>, i: int)
    requires
        0 <= i < template_lines(text).len(),
    ensures
        template_lines(text)[i].last() == '\n',
        !template_lines(text)[i].drop_last().contains('\n'),
{
    reveal_strlit("\n");
    lemma_split_pieces(text, '\n');
    assert(template_lines(text)[i].drop_last() =~= split(text, '\n')[i]);
}

} // verus!
