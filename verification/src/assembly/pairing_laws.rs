//! What pairing outputs and inputs does to them: every operand has its parts
//! from the output and input that it stands for, and only those are paired that
//! belong together.

use crate::assembly::constraints::{
    all_digits, constraint_parts, machine_constraint, names_register_or_index, parsed_constraints,
    quote_braces, warnings_about, Arch, ArgDirSpec,
};
use crate::assembly::operands::OperandView;
use crate::assembly::pairing::{
    counts_for_register, input_index, input_operands, law_last_of_register_counts,
    lemma_lists_in_range, lemma_others_distinct, lemma_paired, lemma_place_in_prefix,
    operand_warnings, other_inputs, output_index, paired, parsed_operands, partner, place_of_class,
    register_inputs, tie_target, ties, unified, ParsedView, SourceView,
};
use crate::errors::ErrorView;
use crate::text::{decimal, is_digit, usize_of};
use vstd::prelude::*;

verus! {

/// The operand has the parts of the output with this index.
pub open spec fn stands_for_output(op: OperandView, o: usize, outs: Seq<ParsedView>) -> bool {
    &&& o < outs.len()
    &&& op.out_expr == Some((o, outs[o as int].expression))
    &&& op.mem_only == outs[o as int].mem_only
    &&& op.constraints == outs[o as int].constraints
    &&& op.dir_spec == if op.in_expr is Some {
        match outs[o as int].dir_spec {
            ArgDirSpec::In => ArgDirSpec::In,
            ArgDirSpec::Out => ArgDirSpec::InOut,
            ArgDirSpec::InOut => ArgDirSpec::InOut,
            ArgDirSpec::LateOut => ArgDirSpec::InLateOut,
            ArgDirSpec::InLateOut => ArgDirSpec::InLateOut,
        }
    } else {
        outs[o as int].dir_spec
    }
}

/// The input goes into the operand of the output: it is in the same explicit
/// register, or has the index of the output.
pub open spec fn belongs_to_output(
    op: OperandView,
    i: int,
    o: usize,
    ins: Seq<ParsedView>,
    outs: Seq<ParsedView>,
) -> bool {
    &&& 0 <= i < ins.len()
    &&& op.in_expr == Some(((i + outs.len()) as usize, ins[i].expression))
    &&& names_register_or_index(ins[i].constraints)
    &&& ins[i].constraints == outs[o as int].constraints || ins[i].constraints == decimal(o as nat)
}

/// The operand has the parts of the input with this number.
pub open spec fn stands_for_input(
    op: OperandView,
    i: int,
    ins: Seq<ParsedView>,
    num_outputs: nat,
) -> bool {
    &&& 0 <= i < ins.len()
    &&& op.out_expr is None
    &&& op.in_expr == Some(((i + num_outputs) as usize, ins[i].expression))
    &&& op.mem_only == ins[i].mem_only
    &&& op.constraints == ins[i].constraints
    &&& op.dir_spec == ins[i].dir_spec
}

/// The operand stands for an output, alone or with an input that belongs to it,
/// or for an input. An output that stands alone is one that the template refers
/// to.
pub open spec fn has_its_parts(
    op: OperandView,
    ins: Seq<ParsedView>,
    outs: Seq<ParsedView>,
    refs: Set<usize>,
) -> bool {
    &&& op.name is None
    &&& match output_index(op) {
        Some(o) => stands_for_output(op, o, outs) && (if op.in_expr is Some {
            exists|i: int| #[trigger] belongs_to_output(op, i, o, ins, outs)
        } else {
            refs.contains(o)
        }),
        None => exists|i: int| #[trigger] stands_for_input(op, i, ins, outs.len()),
    }
}

proof fn lemma_paired_have_parts(
    ins: Seq<ParsedView>,
    outs: Seq<ParsedView>,
    refs: Set<usize>,
    n: nat,
)
    requires
        n <= outs.len(),
        ins.len() + outs.len() <= usize::MAX,
    ensures
        forall|k: int|
            0 <= k < paired(ins, outs, refs, n).args.len() ==> has_its_parts(
                #[trigger] paired(ins, outs, refs, n).args[k],
                ins,
                outs,
                refs,
            ) && output_index(paired(ins, outs, refs, n).args[k]) is Some,
        forall|w: int|
            0 <= w < paired(ins, outs, refs, n).waiting.len() ==> register_inputs(ins).contains(
                #[trigger] paired(ins, outs, refs, n).waiting[w],
            ),
    decreases n,
{
    law_last_of_register_counts(ins);
    lemma_lists_in_range(ins);
    if n > 0 {
        lemma_paired_have_parts(ins, outs, refs, (n - 1) as nat);
        lemma_paired(ins, outs, refs, (n - 1) as nat);
        let prev = paired(ins, outs, refs, (n - 1) as nat);
        let next = paired(ins, outs, refs, n);
        lemma_place_in_prefix(prev.waiting, ins, ins.len() as int, outs[n - 1].constraints, 0);
        lemma_place_in_prefix(prev.waiting, ins, ins.len() as int, decimal((n - 1) as nat), 0);
        let last = prev.args.len() as int;
        let place = partner(prev.waiting, ins, outs[n - 1], (n - 1) as nat);
        assert forall|k: int| 0 <= k < next.args.len() implies has_its_parts(
            #[trigger] next.args[k],
            ins,
            outs,
            refs,
        ) && output_index(next.args[k]) is Some by {
            if k < last {
                assert(next.args[k] == prev.args[k]);
            } else {
                let o = (n - 1) as usize;
                assert(output_index(next.args[k]) == Some(o));
                if let Some(p) = place {
                    let i = prev.waiting[p];
                    assert(register_inputs(ins).contains(i));
                    assert(belongs_to_output(next.args[k], i as int, o, ins, outs));
                }
            }
        }
        assert forall|w: int| 0 <= w < next.waiting.len() implies register_inputs(ins).contains(
            #[trigger] next.waiting[w],
        ) by {
            match place {
                Some(p) => {
                    if w < p {
                        assert(next.waiting[w] == prev.waiting[w]);
                    } else {
                        assert(next.waiting[w] == prev.waiting[w + 1]);
                    }
                },
                None => {
                    assert(next.waiting[w] == prev.waiting[w]);
                },
            }
        }
    } else {
        assert forall|w: int| 0 <= w < register_inputs(ins).len() implies register_inputs(
            ins,
        ).contains(#[trigger] register_inputs(ins)[w]) by {}
    }
}

/// Every operand has its direction, its class or register, its expressions and
/// whether it is memory from the output and the input that it stands for.
pub proof fn law_operands_keep_their_parts(
    ins: Seq<ParsedView>,
    outs: Seq<ParsedView>,
    refs: Set<usize>,
)
    requires
        ins.len() + outs.len() <= usize::MAX,
    ensures
        forall|k: int|
            0 <= k < unified(ins, outs, refs).len() ==> has_its_parts(
                #[trigger] unified(ins, outs, refs)[k],
                ins,
                outs,
                refs,
            ),
{
    let all = unified(ins, outs, refs);
    let pairing = paired(ins, outs, refs, outs.len());
    let first = pairing.args;
    let second = input_operands(pairing.waiting, ins, outs.len());
    let third = input_operands(other_inputs(ins), ins, outs.len());
    let a = first.len() as int;
    let b = a + second.len() as int;
    lemma_paired_have_parts(ins, outs, refs, outs.len());
    lemma_paired(ins, outs, refs, outs.len());
    lemma_lists_in_range(ins);
    assert forall|k: int| 0 <= k < all.len() implies has_its_parts(
        #[trigger] all[k],
        ins,
        outs,
        refs,
    ) by {
        if k < a {
            assert(all[k] == first[k]);
        } else if k < b {
            let i = pairing.waiting[k - a];
            assert(all[k] == second[k - a]);
            assert(stands_for_input(all[k], i as int, ins, outs.len()));
        } else {
            let i = other_inputs(ins)[k - b];
            assert(all[k] == third[k - b]);
            assert(stands_for_input(all[k], i as int, ins, outs.len()));
        }
    }
}

/// No operand gives this output together with an input.
pub open spec fn is_partnerless(ops: Seq<OperandView>, o: usize) -> bool {
    forall|k: int|
        0 <= k < ops.len() && output_index(#[trigger] ops[k]) == Some(o) ==> ops[k].in_expr is None
}

proof fn lemma_waiting_match_nothing(
    ins: Seq<ParsedView>,
    outs: Seq<ParsedView>,
    refs: Set<usize>,
    n: nat,
    o: usize,
)
    requires
        o < n <= outs.len(),
        ins.len() + outs.len() <= usize::MAX,
        is_partnerless(paired(ins, outs, refs, n).args, o),
    ensures
        forall|w: int|
            0 <= w < paired(ins, outs, refs, n).waiting.len() ==> {
                let i = #[trigger] paired(ins, outs, refs, n).waiting[w];
                ins[i as int].constraints != outs[o as int].constraints
                    && ins[i as int].constraints != decimal(o as nat)
            },
    decreases n,
{
    let prev = paired(ins, outs, refs, (n - 1) as nat);
    let next = paired(ins, outs, refs, n);
    lemma_paired(ins, outs, refs, (n - 1) as nat);
    lemma_place_in_prefix(prev.waiting, ins, ins.len() as int, outs[n - 1].constraints, 0);
    lemma_place_in_prefix(prev.waiting, ins, ins.len() as int, decimal((n - 1) as nat), 0);
    let place = partner(prev.waiting, ins, outs[n - 1], (n - 1) as nat);
    let last = prev.args.len() as int;
    if o == n - 1 {
        if place is Some {
            assert(output_index(next.args[last]) == Some(o));
            assert(next.args[last].in_expr is Some);
        }
        assert(next.waiting == prev.waiting);
    } else {
        assert(is_partnerless(prev.args, o)) by {
            assert forall|k: int|
                0 <= k < prev.args.len() && output_index(#[trigger] prev.args[k]) == Some(
                    o,
                ) implies prev.args[k].in_expr is None by {
                assert(next.args[k] == prev.args[k]);
            }
        }
        lemma_waiting_match_nothing(ins, outs, refs, (n - 1) as nat, o);
        assert forall|w: int| 0 <= w < next.waiting.len() implies {
            let i = #[trigger] next.waiting[w];
            ins[i as int].constraints != outs[o as int].constraints && ins[i as int].constraints
                != decimal(o as nat)
        } by {
            match place {
                Some(p) => {
                    if w < p {
                        assert(next.waiting[w] == prev.waiting[w]);
                    } else {
                        assert(next.waiting[w] == prev.waiting[w + 1]);
                    }
                },
                None => {
                    assert(next.waiting[w] == prev.waiting[w]);
                },
            }
        }
    }
}

/// Nothing that belongs together stays apart: an input in an explicit register,
/// or with an index, that has an operand of its own belongs to no output that
/// has none or one without an input.
pub proof fn law_partners_find_each_other(
    ins: Seq<ParsedView>,
    outs: Seq<ParsedView>,
    refs: Set<usize>,
    k: int,
    i: int,
    o: usize,
)
    requires
        ins.len() + outs.len() <= usize::MAX,
        0 <= k < unified(ins, outs, refs).len(),
        stands_for_input(unified(ins, outs, refs)[k], i, ins, outs.len()),
        names_register_or_index(ins[i].constraints),
        o < outs.len(),
        is_partnerless(unified(ins, outs, refs), o),
    ensures
        ins[i].constraints != outs[o as int].constraints,
        ins[i].constraints != decimal(o as nat),
{
    let all = unified(ins, outs, refs);
    let pairing = paired(ins, outs, refs, outs.len());
    let first = pairing.args;
    let second = input_operands(pairing.waiting, ins, outs.len());
    let third = input_operands(other_inputs(ins), ins, outs.len());
    let a = first.len() as int;
    let b = a + second.len() as int;
    lemma_paired_have_parts(ins, outs, refs, outs.len());
    lemma_paired(ins, outs, refs, outs.len());
    lemma_others_distinct(ins);
    assert(is_partnerless(first, o)) by {
        assert forall|j: int|
            0 <= j < first.len() && output_index(#[trigger] first[j]) == Some(o) implies first[j].in_expr
            is None by {
            assert(all[j] == first[j]);
        }
    }
    lemma_waiting_match_nothing(ins, outs, refs, outs.len(), o);
    if k < a {
        assert(all[k] == first[k]);
        assert(output_index(first[k]) is Some);
    } else if k < b {
        assert(all[k] == second[k - a]);
        assert(pairing.waiting[k - a] == i);
    } else {
        assert(all[k] == third[k - b]);
        assert(other_inputs(ins)[k - b] == i);
    }
}

/// Exactly the inputs whose constraint is an index are tied, each to the output
/// with that index.
pub proof fn law_ties(inputs: Seq<SourceView>, num_outputs: nat)
    requires
        inputs.len() + num_outputs <= usize::MAX,
    ensures
        forall|i: int|
            0 <= i < inputs.len() ==> match tie_target((#[trigger] inputs[i]).constraints) {
                Some(o) => ties(inputs, num_outputs).contains_key(
                    ((i + num_outputs) as usize, false),
                ) && ties(inputs, num_outputs)[((i + num_outputs) as usize, false)] == o && ties(
                    inputs,
                    num_outputs,
                ).contains_key((o, true)),
                None => !ties(inputs, num_outputs).contains_key(
                    ((i + num_outputs) as usize, false),
                ),
            },
        forall|c: usize| #[trigger]
            ties(inputs, num_outputs).contains_key((c, false)) ==> num_outputs <= c
                < inputs.len() + num_outputs,
        forall|o: usize| #[trigger]
            ties(inputs, num_outputs).contains_key((o, true)) ==> exists|i: int|
                0 <= i < inputs.len() && tie_target((#[trigger] inputs[i]).constraints) == Some(o),
    decreases inputs.len(),
{
    if inputs.len() > 0 {
        let front = inputs.drop_last();
        let last = inputs.len() - 1;
        law_ties(front, num_outputs);
        let before = ties(front, num_outputs);
        let after = ties(inputs, num_outputs);
        assert forall|i: int| 0 <= i < inputs.len() implies match tie_target(
            (#[trigger] inputs[i]).constraints,
        ) {
            Some(o) => after.contains_key(((i + num_outputs) as usize, false)) && after[(
                (i + num_outputs) as usize,
                false,
            )] == o && after.contains_key((o, true)),
            None => !after.contains_key(((i + num_outputs) as usize, false)),
        } by {
            if i < last {
                assert(inputs[i] == front[i]);
            } else {
                assert(!before.contains_key(((i + num_outputs) as usize, false)));
            }
        }
        assert forall|o: usize| #[trigger] after.contains_key((o, true)) implies exists|i: int|
            0 <= i < inputs.len() && tie_target((#[trigger] inputs[i]).constraints) == Some(o) by {
            if before.contains_key((o, true)) {
                let i = choose|i: int|
                    0 <= i < front.len() && tie_target((#[trigger] front[i]).constraints) == Some(
                        o,
                    );
                assert(inputs[i] == front[i]);
            } else {
                assert(tie_target(inputs[last].constraints) == Some(o));
            }
        }
    }
}

proof fn lemma_machine_class_is_no_index(c: Seq<char>, arch: Arch)
    ensures
        machine_constraint(c, arch) matches Some((class, _)) ==> class.len() > 0 && !is_digit(
            class[0],
        ),
{
    reveal_strlit("reg_abcd");
    reveal_strlit("reg_byte");
    reveal_strlit("\"a\"");
    reveal_strlit("\"b\"");
    reveal_strlit("\"c\"");
    reveal_strlit("\"d\"");
    reveal_strlit("\"si\"");
    reveal_strlit("\"di\"");
    reveal_strlit("x87_reg");
    reveal_strlit("\"st(0)\"");
    reveal_strlit("\"st(1)\"");
    reveal_strlit("xmm_reg");
    reveal_strlit("mmx_reg");
    reveal_strlit("zmm_reg");
    reveal_strlit("\"xmm0\"");
    reveal_strlit("kreg");
    reveal_strlit("\"SP\"");
    reveal_strlit("vreg");
    reveal_strlit("vreg_low16");
    reveal_strlit("preg");
    reveal_strlit("reg");
    reveal_strlit("sreg");
    reveal_strlit("sreg_low16");
    reveal_strlit("dreg");
    reveal_strlit("freg");
}

/// An input is tied exactly if what its constraint is parsed to is an index, and
/// to the output with this index.
pub proof fn law_ties_are_parsed_indices(s: Seq<char>, arch: Arch)
    ensures
        parsed_constraints(s, arch) matches Ok((_, _, class)) ==> tie_target(s) == usize_of(class),
{
    reveal_strlit("reg");
    let raw = constraint_parts(s).body;
    let body = quote_braces(raw);
    lemma_machine_class_is_no_index(body, arch);
    if all_digits(body) {
        assert forall|i: int| 0 <= i < raw.len() implies raw[i] == body[i] by {
            assert(is_digit(body[i]));
        }
        assert(raw =~= body);
    } else if usize_of(raw) is Some {
        assert forall|i: int| 0 <= i < body.len() implies is_digit(#[trigger] body[i]) by {
            assert(is_digit(raw[i]));
        }
    }
    if let Ok((_, _, class)) = parsed_constraints(s, arch) {
        if usize_of(class) is Some {
            assert(is_digit(class[0]));
            assert("reg"@[0] == 'r');
        }
    }
}

proof fn lemma_registers_ascend(ins: Seq<ParsedView>)
    requires
        ins.len() <= usize::MAX,
    ensures
        forall|a: int, b: int|
            0 <= a < b < register_inputs(ins).len() ==> (#[trigger] register_inputs(ins)[a]) < (
            #[trigger] register_inputs(ins)[b]),
        forall|a: int, b: int|
            0 <= a < b < other_inputs(ins).len() ==> (#[trigger] other_inputs(ins)[a]) < (
            #[trigger] other_inputs(ins)[b]),
    decreases ins.len(),
{
    if ins.len() > 0 {
        let front = ins.drop_last();
        let before = register_inputs(front);
        let after = register_inputs(ins);
        lemma_registers_ascend(front);
        lemma_lists_in_range(front);
        lemma_place_in_prefix(before, ins, ins.len() - 1, ins.last().constraints, 0);
        let place = place_of_class(before, ins, ins.last().constraints, 0);
        assert forall|a: int, b: int| 0 <= a < b < after.len() implies (#[trigger] after[a]) < (
        #[trigger] after[b]) by {
            if names_register_or_index(ins.last().constraints) {
                let kept = match place {
                    Some(p) => before.remove(p),
                    None => before,
                };
                let from_a = if place is Some && a >= place.unwrap() {
                    a + 1
                } else {
                    a
                };
                assert(after == kept.push((ins.len() - 1) as usize));
                assert(kept[a] == before[from_a]);
                if b < kept.len() {
                    let from_b = if place is Some && b >= place.unwrap() {
                        b + 1
                    } else {
                        b
                    };
                    assert(kept[b] == before[from_b]);
                } else {
                    assert(before[from_a] < front.len());
                }
            }
        }
        let others = other_inputs(front);
        assert forall|a: int, b: int| 0 <= a < b < other_inputs(ins).len() implies (
        #[trigger] other_inputs(ins)[a]) < (#[trigger] other_inputs(ins)[b]) by {
            assert(other_inputs(ins)[a] == others[a]);
            if b < others.len() {
                assert(other_inputs(ins)[b] == others[b]);
            } else {
                assert(others[a] < front.len());
            }
        }
    }
}

proof fn lemma_paired_in_order(
    ins: Seq<ParsedView>,
    outs: Seq<ParsedView>,
    refs: Set<usize>,
    n: nat,
)
    requires
        n <= outs.len(),
        ins.len() + outs.len() <= usize::MAX,
    ensures
        forall|a: int|
            0 <= a < paired(ins, outs, refs, n).args.len() ==> (output_index(
                #[trigger] paired(ins, outs, refs, n).args[a],
            ) matches Some(o) && o < n),
        forall|a: int, b: int|
            0 <= a < b < paired(ins, outs, refs, n).args.len() ==> output_index(
                #[trigger] paired(ins, outs, refs, n).args[a],
            ).unwrap() < output_index(#[trigger] paired(ins, outs, refs, n).args[b]).unwrap(),
        forall|a: int, b: int|
            0 <= a < b < paired(ins, outs, refs, n).waiting.len() ==> (#[trigger] paired(
                ins,
                outs,
                refs,
                n,
            ).waiting[a]) < (#[trigger] paired(ins, outs, refs, n).waiting[b]),
    decreases n,
{
    if n == 0 {
        lemma_registers_ascend(ins);
    } else {
        lemma_paired_in_order(ins, outs, refs, (n - 1) as nat);
        lemma_paired(ins, outs, refs, (n - 1) as nat);
        let prev = paired(ins, outs, refs, (n - 1) as nat);
        let next = paired(ins, outs, refs, n);
        lemma_place_in_prefix(prev.waiting, ins, ins.len() as int, outs[n - 1].constraints, 0);
        lemma_place_in_prefix(prev.waiting, ins, ins.len() as int, decimal((n - 1) as nat), 0);
        let place = partner(prev.waiting, ins, outs[n - 1], (n - 1) as nat);
        let last = prev.args.len() as int;
        assert forall|a: int| 0 <= a < next.args.len() implies (output_index(
            #[trigger] next.args[a],
        ) matches Some(o) && o < n) by {
            if a < last {
                assert(next.args[a] == prev.args[a]);
            }
        }
        assert forall|a: int, b: int| 0 <= a < b < next.args.len() implies output_index(
            #[trigger] next.args[a],
        ).unwrap() < output_index(#[trigger] next.args[b]).unwrap() by {
            assert(next.args[a] == prev.args[a]);
            assert(output_index(prev.args[a]) matches Some(o) && o < n - 1);
            if b < last {
                assert(next.args[b] == prev.args[b]);
            }
        }
        assert forall|a: int, b: int| 0 <= a < b < next.waiting.len() implies (
        #[trigger] next.waiting[a]) < (#[trigger] next.waiting[b]) by {
            if let Some(p) = place {
                let from_a = if a >= p {
                    a + 1
                } else {
                    a
                };
                let from_b = if b >= p {
                    b + 1
                } else {
                    b
                };
                assert(next.waiting[a] == prev.waiting[from_a]);
                assert(next.waiting[b] == prev.waiting[from_b]);
            }
        }
    }
}

/// Operands with an output come before those without, in the order of the
/// outputs. Of those without, the ones in an explicit register or with an index
/// come before the others, and both are in the order of the inputs.
pub open spec fn comes_before(a: OperandView, b: OperandView) -> bool {
    match (output_index(a), output_index(b)) {
        (Some(x), Some(y)) => x < y,
        (Some(_), None) => true,
        (None, Some(_)) => false,
        (None, None) => if names_register_or_index(a.constraints) == names_register_or_index(
            b.constraints,
        ) {
            input_index(a).unwrap() < input_index(b).unwrap()
        } else {
            names_register_or_index(a.constraints)
        },
    }
}

/// The operands are in order.
pub proof fn law_operands_come_in_order(
    ins: Seq<ParsedView>,
    outs: Seq<ParsedView>,
    refs: Set<usize>,
)
    requires
        ins.len() + outs.len() <= usize::MAX,
    ensures
        forall|a: int, b: int|
            0 <= a < b < unified(ins, outs, refs).len() ==> comes_before(
                #[trigger] unified(ins, outs, refs)[a],
                #[trigger] unified(ins, outs, refs)[b],
            ),
{
    let all = unified(ins, outs, refs);
    let pairing = paired(ins, outs, refs, outs.len());
    let first = pairing.args;
    let second = input_operands(pairing.waiting, ins, outs.len());
    let others = other_inputs(ins);
    let third = input_operands(others, ins, outs.len());
    let m = first.len() as int;
    let n = m + second.len() as int;
    lemma_paired_in_order(ins, outs, refs, outs.len());
    lemma_paired_have_parts(ins, outs, refs, outs.len());
    lemma_paired(ins, outs, refs, outs.len());
    lemma_others_distinct(ins);
    lemma_registers_ascend(ins);
    law_last_of_register_counts(ins);
    assert forall|a: int, b: int| 0 <= a < b < all.len() implies comes_before(
        #[trigger] all[a],
        #[trigger] all[b],
    ) by {
        if a < m {
            assert(all[a] == first[a]);
            if b < m {
                assert(all[b] == first[b]);
            }
        } else if a < n {
            assert(all[a] == second[a - m]);
            let i = pairing.waiting[a - m];
            assert(register_inputs(ins).contains(i));
            assert(counts_for_register(ins, i as int));
            if b < n {
                assert(all[b] == second[b - m]);
                let j = pairing.waiting[b - m];
                assert(register_inputs(ins).contains(j));
                assert(counts_for_register(ins, j as int));
                assert(i < j);
            } else {
                assert(all[b] == third[b - n]);
                assert(!names_register_or_index(ins[others[b - n] as int].constraints));
            }
        } else {
            assert(all[a] == third[a - n]);
            assert(all[b] == third[b - n]);
            assert(!names_register_or_index(ins[others[a - n] as int].constraints));
            assert(!names_register_or_index(ins[others[b - n] as int].constraints));
            assert(others[a - n] < others[b - n]);
        }
    }
}

/// Operands are parsed one by one and in order, each by its own constraint and
/// with its own expression. The first that has no meaning is reported.
pub proof fn law_operands_are_parsed_one_by_one(ops: Seq<SourceView>, op: SourceView, arch: Arch)
    ensures
        parsed_operands(Seq::empty(), arch) == Ok::<Seq<ParsedView>, ErrorView>(Seq::empty()),
        parsed_operands(ops.push(op), arch) == match parsed_operands(ops, arch) {
            Err(e) => Err::<Seq<ParsedView>, ErrorView>(e),
            Ok(parsed) => match parsed_constraints(op.constraints, arch) {
                Err(e) => Err(e),
                Ok((dir, mem, class)) => Ok(
                    parsed.push(
                        (ParsedView {
                            dir_spec: dir,
                            mem_only: mem,
                            constraints: class,
                            expression: op.expression,
                        }),
                    ),
                ),
            },
        },
        operand_warnings(Seq::empty(), arch).len() == 0,
        operand_warnings(ops.push(op), arch) == if parsed_operands(ops, arch) is Err {
            operand_warnings(ops, arch)
        } else {
            warnings_about(op.constraints, arch)
        },
{
    assert(ops.push(op).drop_last() =~= ops);
    assert(ops.push(op).last() == op);
}

/// One more input that names an output is tied to it and takes the place of an
/// earlier one that names the same output; all other ties stay.
pub proof fn law_one_more_tie(inputs: Seq<SourceView>, input: SourceView, num_outputs: nat)
    requires
        inputs.len() + 1 + num_outputs <= usize::MAX,
    ensures
        ties(Seq::empty(), num_outputs) == Map::<(usize, bool), usize>::empty(),
        ({
            let before = ties(inputs, num_outputs);
            let after = ties(inputs.push(input), num_outputs);
            let number = inputs.len() as usize;
            let place = (inputs.len() + num_outputs) as usize;
            match tie_target(input.constraints) {
                Some(o) => after == before.insert((o, true), number).insert((place, false), o),
                None => after == before,
            }
        }),
{
    assert(inputs.push(input).drop_last() =~= inputs);
    assert(inputs.push(input).last() == input);
}

/// The operand takes an input of this class, register or index.
pub open spec fn takes_class(
    op: OperandView,
    ins: Seq<ParsedView>,
    num_outputs: nat,
    class: Seq<char>,
) -> bool {
    op.in_expr matches Some((c, _)) && ins[c - num_outputs].constraints == class
}

proof fn lemma_served_in_order(
    ins: Seq<ParsedView>,
    outs: Seq<ParsedView>,
    refs: Set<usize>,
    n: nat,
)
    requires
        n <= outs.len(),
        ins.len() + outs.len() <= usize::MAX,
    ensures
        paired(ins, outs, refs, n).waiting.no_duplicates(),
        forall|w: int, o: int|
            0 <= w < paired(ins, outs, refs, n).waiting.len() && 0 <= o < n ==> ins[(
            #[trigger] paired(ins, outs, refs, n).waiting[w]) as int].constraints != (
            #[trigger] outs[o]).constraints,
        forall|k: int, o: int|
            0 <= k < paired(ins, outs, refs, n).args.len() && 0 <= o < output_index(
                #[trigger] paired(ins, outs, refs, n).args[k],
            ).unwrap() ==> !takes_class(
                paired(ins, outs, refs, n).args[k],
                ins,
                outs.len(),
                (#[trigger] outs[o]).constraints,
            ),
    decreases n,
{
    law_last_of_register_counts(ins);
    lemma_lists_in_range(ins);
    if n > 0 {
        let prev = paired(ins, outs, refs, (n - 1) as nat);
        let next = paired(ins, outs, refs, n);
        let class = outs[n - 1].constraints;
        lemma_served_in_order(ins, outs, refs, (n - 1) as nat);
        lemma_paired(ins, outs, refs, (n - 1) as nat);
        lemma_paired_have_parts(ins, outs, refs, (n - 1) as nat);
        lemma_paired_in_order(ins, outs, refs, n);
        lemma_paired_in_order(ins, outs, refs, (n - 1) as nat);
        lemma_place_in_prefix(prev.waiting, ins, ins.len() as int, class, 0);
        lemma_place_in_prefix(prev.waiting, ins, ins.len() as int, decimal((n - 1) as nat), 0);
        let place = partner(prev.waiting, ins, outs[n - 1], (n - 1) as nat);
        let last = prev.args.len() as int;
        assert forall|w: int, o: int| 0 <= w < next.waiting.len() && 0 <= o < n implies ins[(
        #[trigger] next.waiting[w]) as int].constraints != (#[trigger] outs[o]).constraints by {
            let from = if place is Some && w >= place.unwrap() {
                w + 1
            } else {
                w
            };
            let i = prev.waiting[from];
            assert(next.waiting[w] == i);
            if o == n - 1 && ins[i as int].constraints == class {
                let p = place.unwrap();
                let j = prev.waiting[p];
                assert(ins[j as int].constraints == class);
                assert(register_inputs(ins).contains(i) && register_inputs(ins).contains(j));
                assert(counts_for_register(ins, i as int) && counts_for_register(ins, j as int));
                assert(i != j);
            }
        }
        assert forall|k: int, o: int|
            0 <= k < next.args.len() && 0 <= o < output_index(
                #[trigger] next.args[k],
            ).unwrap() implies !takes_class(
            next.args[k],
            ins,
            outs.len(),
            (#[trigger] outs[o]).constraints,
        ) by {
            if k < last {
                assert(next.args[k] == prev.args[k]);
            } else {
                assert(output_index(next.args[k]) == Some((n - 1) as usize));
                if let Some(p) = place {
                    assert(ins[prev.waiting[p] as int].constraints != outs[o].constraints);
                }
            }
        }
    } else {
        assert forall|k: int, o: int|
            0 <= k < paired(ins, outs, refs, 0).args.len() && 0 <= o < output_index(
                #[trigger] paired(ins, outs, refs, 0).args[k],
            ).unwrap() implies !takes_class(
            paired(ins, outs, refs, 0).args[k],
            ins,
            outs.len(),
            (#[trigger] outs[o]).constraints,
        ) by {}
    }
}

/// An input in the register of an output is never left over, nor given to an
/// output behind the first in that register, even where another input has the
/// index of that one.
pub proof fn law_registers_go_to_their_first_output(
    ins: Seq<ParsedView>,
    outs: Seq<ParsedView>,
    refs: Set<usize>,
    k: int,
    o: int,
)
    requires
        ins.len() + outs.len() <= usize::MAX,
        0 <= k < unified(ins, outs, refs).len(),
        0 <= o < outs.len(),
        names_register_or_index(outs[o].constraints),
    ensures
        takes_class(unified(ins, outs, refs)[k], ins, outs.len(), outs[o].constraints) ==> (
        output_index(unified(ins, outs, refs)[k]) matches Some(p) && p <= o),
{
    let all = unified(ins, outs, refs);
    let pairing = paired(ins, outs, refs, outs.len());
    let first = pairing.args;
    let second = input_operands(pairing.waiting, ins, outs.len());
    let others = other_inputs(ins);
    let third = input_operands(others, ins, outs.len());
    let m = first.len() as int;
    let n = m + second.len() as int;
    lemma_served_in_order(ins, outs, refs, outs.len());
    lemma_paired(ins, outs, refs, outs.len());
    lemma_paired_in_order(ins, outs, refs, outs.len());
    lemma_others_distinct(ins);
    if k < m {
        assert(all[k] == first[k]);
        assert(output_index(first[k]) is Some);
    } else if k < n {
        assert(all[k] == second[k - m]);
        assert(ins[pairing.waiting[k - m] as int].constraints != outs[o].constraints);
    } else {
        assert(all[k] == third[k - n]);
        assert(!names_register_or_index(ins[others[k - n] as int].constraints));
    }
}

} // verus!
